use hxnu::devfs::{node_kind, render_null, render_zero, summary, DevfsNodeKind};
use hxnu::gboot::{
    write_enable_bit, write_enable_mask, AlveoDriver, FsmState, GuiDriver, PortAction, TouchDriver, UART_POLL_LIMIT,
};

fn c(s: &str) -> Vec<char> {
    s.chars().collect()
}

#[test]
fn masked_register_writes() {
    assert_eq!(write_enable_mask(0x00FF, 0x1234), 0x00FF_0034);
    assert_eq!(write_enable_bit(3, true), 0x0008_0008);
    assert_eq!(write_enable_bit(3, false), 0x0008_0000);
}

#[test]
fn modem_sends_at_once_ready() {
    let mut d = AlveoDriver::new();
    assert!(d.start() == PortAction::Poll);
    assert!(d.on_line_status(0) == PortAction::Poll);
    assert!(d.on_line_status(0x20) == PortAction::Write(b'A'));
    assert!(d.on_line_status(0x20) == PortAction::Write(b'T'));
    assert!(d.state == FsmState::Ready);
}

#[test]
fn modem_gives_up_after_the_poll_limit() {
    let mut d = AlveoDriver::new();
    d.start();
    let mut last = PortAction::Poll;
    for _ in 0..UART_POLL_LIMIT {
        last = d.on_line_status(0);
    }
    assert!(last == PortAction::Finished(FsmState::Error));
    assert!(d.state == FsmState::Error);
}

#[test]
fn display_and_touch_bring_up() {
    let mut g = GuiDriver::new();
    assert!(g.start() == PortAction::Poll);
    assert!(g.on_input_status(0) == PortAction::Poll);
    assert!(g.on_input_status(0x08) == PortAction::WriteCell(0x0247));
    let mut t = TouchDriver::new();
    assert!(t.start() == PortAction::Poll);
    assert!(t.on_status(0x02) == PortAction::Poll);
    assert!(t.on_status(0) == PortAction::Write(0xAA));
    assert!(t.on_status(0) == PortAction::Poll);
    assert!(t.on_status(0x01) == PortAction::ReadData);
    assert!(t.on_response(0x55) == PortAction::Finished(FsmState::Ready));
    let mut bad = TouchDriver::new();
    bad.start();
    bad.on_status(0);
    bad.on_status(0x01);
    assert!(bad.on_response(0xFC) == PortAction::Finished(FsmState::Error));
}

#[test]
fn device_nodes() {
    let s = summary();
    assert_eq!((s.directory_count, s.node_count, s.entry_count), (2, 9, 11));
    assert!(node_kind(&c("/dev")) == Some(DevfsNodeKind::Directory));
    assert!(node_kind(&c("/dev/null")) == Some(DevfsNodeKind::Device));
    assert!(node_kind(&c("/dev/sda")).is_none());
    assert_eq!(render_null().iter().collect::<String>(), "path /dev/null\nkind sink\nreads eof\nwrites discard\n");
    assert_eq!(render_zero().iter().collect::<String>(), "path /dev/zero\nkind source\nreads zero-fill\nwrites discard\n");
}
