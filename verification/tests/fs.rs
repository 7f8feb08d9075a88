use hxnu::fat::{
    fat_path_depth, is_bad_cluster, is_end_of_chain, join_fat_path, normalize_fat_path, parse_bpb,
    parse_short_name, FatType,
};
use hxnu::tmpfs::{
    direct_child_name, handles_path, normalize_path, parent_directory, sort_names, TmpfsError, TmpfsNodeKind,
    TmpfsState,
};

fn c(s: &str) -> Vec<char> {
    s.chars().collect()
}

fn s(v: &[char]) -> String {
    v.iter().collect()
}

fn tmpfs() -> TmpfsState {
    let mut t = TmpfsState::new();
    let summary = t.initialize().unwrap();
    assert_eq!(summary.directory_count, 2);
    assert_eq!(summary.file_count, 0);
    t
}

#[test]
fn tmpfs_paths() {
    assert!(handles_path(&c("/tmp")));
    assert!(handles_path(&c("/run/x")));
    assert!(!handles_path(&c("/tmpx")));
    assert!(!handles_path(&c("/proc/version")));
    assert_eq!(s(&normalize_path(&c("/tmp//a/./b/../c")).unwrap()), "/tmp/a/c");
    assert!(normalize_path(&c("tmp/a")).is_none());
    assert_eq!(s(&parent_directory(&c("/tmp/a/b")).unwrap()), "/tmp/a");
    assert_eq!(s(&direct_child_name(&c("/tmp"), &c("/tmp/a")).unwrap()), "a");
    assert!(direct_child_name(&c("/tmp"), &c("/tmp/a/b")).is_none());
    let sorted = sort_names(vec![c("b"), c("a"), c("c"), c("a")]);
    let names: Vec<String> = sorted.iter().map(|n| s(n)).collect();
    assert_eq!(names, vec!["a", "a", "b", "c"]);
}

#[test]
fn tmpfs_read_after_write_rename_unlink() {
    let mut t = tmpfs();
    let f = t.open_file(&c("/tmp/a.txt"), true, false).unwrap();
    assert_eq!(s(&f.path), "/tmp/a.txt");
    assert!(f.content.is_empty());
    t.write_file(&c("/tmp/a.txt"), b"hello").unwrap();
    assert_eq!(t.read_bytes(&c("/tmp/a.txt")).unwrap(), b"hello".to_vec());
    assert_eq!(t.node_info(&c("/tmp/a.txt")).unwrap().size, 5);
    assert!(t.node_kind(&c("/tmp")) == Some(TmpfsNodeKind::Directory));
    assert!(t.node_kind(&c("/tmp/a.txt")) == Some(TmpfsNodeKind::File));
    t.open_file(&c("/tmp/b.txt"), true, false).unwrap();
    assert_eq!(s(&t.render_directory(&c("/tmp")).unwrap()), "a.txt\nb.txt\n");
    t.rename_file(&c("/tmp/a.txt"), &c("/run/moved")).unwrap();
    assert!(t.read_bytes(&c("/tmp/a.txt")).is_none());
    assert_eq!(t.read_bytes(&c("/run/moved")).unwrap(), b"hello".to_vec());
    t.unlink_file(&c("/run/moved")).unwrap();
    assert!(t.read_bytes(&c("/run/moved")).is_none());
    let reopened = t.open_file(&c("/tmp/b.txt"), false, true).unwrap();
    assert!(reopened.content.is_empty());
}

#[test]
fn tmpfs_errors() {
    let mut cold = TmpfsState::new();
    assert!(cold.write_file(&c("/tmp/x"), b"1").err() == Some(TmpfsError::NotInitialized));
    let mut t = tmpfs();
    assert!(t.initialize().err() == Some(TmpfsError::AlreadyInitialized));
    assert!(t.write_file(&c("/tmp/x"), b"1").err() == Some(TmpfsError::NotFound));
    assert!(t.open_file(&c("/tmp"), true, false).err() == Some(TmpfsError::IsDirectory));
    assert!(t.open_file(&c("relative"), true, false).err() == Some(TmpfsError::InvalidPath));
    assert!(t.unlink_file(&c("/tmp/none")).err() == Some(TmpfsError::NotFound));
    assert_eq!(TmpfsError::FileLimitReached.as_str(), "tmpfs file limit reached");
}

fn fat16_boot_sector() -> Vec<u8> {
    let mut b = vec![0u8; 512];
    b[11..13].copy_from_slice(&512u16.to_le_bytes());
    b[13] = 4;
    b[14..16].copy_from_slice(&4u16.to_le_bytes());
    b[16] = 2;
    b[17..19].copy_from_slice(&512u16.to_le_bytes());
    b[19..21].copy_from_slice(&40000u16.to_le_bytes());
    b[22..24].copy_from_slice(&40u16.to_le_bytes());
    b[510] = 0x55;
    b[511] = 0xAA;
    b
}

#[test]
fn fat_boot_sector_layout() {
    let bpb = parse_bpb(&fat16_boot_sector()).unwrap();
    assert!(bpb.fat_type == FatType::Fat16);
    assert_eq!(bpb.bytes_per_sector, 512);
    assert_eq!(bpb.sectors_per_cluster, 4);
    assert_eq!(bpb.reserved_sectors, 4);
    assert_eq!(bpb.fat_count, 2);
    assert_eq!(bpb.sectors_per_fat, 40);
    assert_eq!(bpb.root_dir_entries, 512);
    assert_eq!(bpb.root_dir_sectors, 32);
    assert_eq!(bpb.fat_start_lba_offset, 4);
    assert_eq!(bpb.root_dir_start_lba_offset, 4 + 2 * 40);
    assert_eq!(bpb.first_data_sector_offset, 4 + 2 * 40 + 32);
    let mut bad = fat16_boot_sector();
    bad[11..13].copy_from_slice(&500u16.to_le_bytes());
    assert!(parse_bpb(&bad).is_none());
    let mut small = fat16_boot_sector();
    small[19..21].copy_from_slice(&2000u16.to_le_bytes());
    assert!(parse_bpb(&small).is_none());
}

#[test]
fn fat_names_and_chains() {
    assert_eq!(s(&parse_short_name(b"README  TXT").unwrap()), "README.TXT");
    assert_eq!(s(&parse_short_name(b"BOOT       ").unwrap()), "BOOT");
    assert!(is_end_of_chain(FatType::Fat16, 0xFFF8));
    assert!(!is_end_of_chain(FatType::Fat16, 0xFFF7));
    assert!(is_bad_cluster(FatType::Fat32, 0x0FFF_FFF7));
    assert!(is_end_of_chain(FatType::Fat32, 0x0FFF_FFFF));
    assert_eq!(s(&normalize_fat_path(&c("/fat/EFI/BOOT//")).unwrap()), "/fat/EFI/BOOT");
    assert_eq!(s(&normalize_fat_path(&c("/fat/")).unwrap()), "/fat");
    assert!(normalize_fat_path(&c("/fat/EFI/../x")).is_none());
    assert!(normalize_fat_path(&c("/tmp/x")).is_none());
    assert_eq!(s(&join_fat_path(&c("/fat/EFI"), &c("BOOT"))), "/fat/EFI/BOOT");
    assert_eq!(fat_path_depth(&c("/fat/EFI/BOOT/x")), 3);
    assert_eq!(fat_path_depth(&c("/fat")), 0);
}
