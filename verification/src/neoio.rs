//! NeoIO's device tree: nodes found by firmware tables or hot-plug, each hot-plugged device
//! isolated behind the IOMMU from the start, at most 64 of them; and the IOMMU policy
//! messages. Locking, interrupts and power control are the caller's.
use vstd::prelude::*;

verus! {

pub const NEO_TREE_CAPACITY: usize = 64;

#[derive(Copy, Clone, Debug, PartialEq, Eq, Structural)]
pub enum TopologySource {
    Acpi,
    DeviceTreeBlob,
    HotPlugPcie,
}

#[derive(Copy, Clone, Debug, PartialEq, Eq, Structural)]
pub struct NeoNode {
    pub vendor_id: u16,
    pub device_id: u16,
    pub is_npu: bool,
    pub is_gpu: bool,
    pub source: TopologySource,
    pub iommu_domain_isolated: bool,
}

/// The nodes in slots, the first `node_count` of them filled.
pub struct NeoDeviceTree {
    pub nodes: Vec<Option<NeoNode>>,
    pub node_count: usize,
}

impl NeoDeviceTree {
    pub open spec fn wf(&self) -> bool {
        &&& self.nodes@.len() == NEO_TREE_CAPACITY
        &&& self.node_count <= NEO_TREE_CAPACITY
        &&& forall|i: int| 0 <= i < NEO_TREE_CAPACITY ==> (#[trigger] self.nodes@[i] is Some <==> i < self.node_count)
    }

    /// The filled slots in order.
    pub open spec fn view_nodes(&self) -> Seq<NeoNode> {
        Seq::new(self.node_count as nat, |i: int| self.nodes@[i]->0)
    }
}

/// What a hot-plug notification led to.
#[derive(Copy, Clone, Debug, PartialEq, Eq, Structural)]
pub enum HotplugOutcome {
    /// NeoIO is not running; nothing was recorded.
    Ignored,
    /// The device was recorded, isolated; its IOMMU group must be reconfigured.
    Isolated,
    /// The tree is full; nothing was recorded.
    CapacityExceeded,
}

pub struct NeoIoManager {
    pub is_active: bool,
    pub tree: NeoDeviceTree,
}

impl NeoIoManager {
    pub fn new() -> (m: Self)
        ensures
            !m.is_active,
            m.tree.wf(),
            m.tree.node_count == 0,
    {
        let mut nodes: Vec<Option<NeoNode>> = Vec::new();
        let mut i: usize = 0;
        while i < NEO_TREE_CAPACITY
            invariant
                i <= NEO_TREE_CAPACITY,
                nodes@.len() == i,
                forall|j: int| 0 <= j < i ==> #[trigger] nodes@[j] is None,
            decreases NEO_TREE_CAPACITY - i,
        {
            nodes.push(None);
            i = i + 1;
        }
        NeoIoManager { is_active: false, tree: NeoDeviceTree { nodes, node_count: 0 } }
    }

    /// Starts NeoIO; the tree is kept as it is.
    pub fn init(&mut self)
        ensures
            final(self).is_active,
            final(self).tree.nodes@ == old(self).tree.nodes@,
            final(self).tree.node_count == old(self).tree.node_count,
    {
        self.is_active = true;
    }

    pub fn get_tree(&self) -> (t: &NeoDeviceTree)
        ensures
            t == &self.tree,
    {
        &self.tree
    }

    /// Records a hot-plugged device as a new node, isolated until its driver is approved.
    pub fn inject_dynamic_fdt_node(&mut self, vendor_id: u16, device_id: u16, is_npu: bool, is_gpu: bool) -> (r: HotplugOutcome)
        requires
            old(self).tree.wf(),
        ensures
            final(self).tree.wf(),
            final(self).is_active == old(self).is_active,
            !old(self).is_active ==> r == HotplugOutcome::Ignored && final(self).tree.view_nodes() == old(self).tree.view_nodes(),
            old(self).is_active && old(self).tree.node_count == NEO_TREE_CAPACITY ==> r == HotplugOutcome::CapacityExceeded
                && final(self).tree.view_nodes() == old(self).tree.view_nodes(),
            old(self).is_active && old(self).tree.node_count < NEO_TREE_CAPACITY ==> r == HotplugOutcome::Isolated
                && final(self).tree.view_nodes() == old(self).tree.view_nodes().push(NeoNode {
                vendor_id,
                device_id,
                is_npu,
                is_gpu,
                source: TopologySource::HotPlugPcie,
                iommu_domain_isolated: true,
            }),
    {
        if !self.is_active {
            return HotplugOutcome::Ignored;
        }
        if self.tree.node_count < self.tree.nodes.len() {
            let ghost before = self.tree.view_nodes();
            let n = self.tree.node_count;
            let node = NeoNode {
                vendor_id,
                device_id,
                is_npu,
                is_gpu,
                source: TopologySource::HotPlugPcie,
                iommu_domain_isolated: true,
            };
            self.tree.nodes.set(n, Some(node));
            self.tree.node_count = n + 1;
            assert(self.tree.view_nodes() =~= before.push(node));
            HotplugOutcome::Isolated
        } else {
            HotplugOutcome::CapacityExceeded
        }
    }
}

/// What NeoIO reports when a hot-plugged device is isolated.
pub fn reconfigure_iommu_group(_bus: u8, _device: u8, _function: u8) -> (r: (&'static str, &'static str))
    ensures
        r.0@ == "NeoIO(IOMMU): Hot-plug detected. Enforcing ACS isolation...\n"@,
        r.1@ == "NeoIO(IOMMU): Device placed in strict isolation domain (DENY ALL).\n"@,
{
    (
        "NeoIO(IOMMU): Hot-plug detected. Enforcing ACS isolation...\n",
        "NeoIO(IOMMU): Device placed in strict isolation domain (DENY ALL).\n",
    )
}

/// What NeoIO reports when an approved device is given DMA pages.
pub fn grant_dma_access(_bus: u8, _device: u8, _function: u8, _physical_addr: u64, _size: usize) -> (r: &'static str)
    ensures
        r@ == "NeoIO(IOMMU): Granting DMA access to authenticated device.\n"@,
{
    "NeoIO(IOMMU): Granting DMA access to authenticated device.\n"
}

/// What NeoIO reports when a device loses its DMA pages before a swap.
pub fn revoke_dma_access_for_swap(_bus: u8, _device: u8, _function: u8) -> (r: &'static str)
    ensures
        r@ == "NeoIO(IOMMU): Revoking DMA access for device hot-swap (preventing UAF).\n"@,
{
    "NeoIO(IOMMU): Revoking DMA access for device hot-swap (preventing UAF).\n"
}

/// The OCuLink bridge between two HXNU kernels.
pub struct OculinkBridge;

impl OculinkBridge {
    /// The peer on the link is taken to run HXNU.
    pub fn handshake_hxnu_peer(_bus: u8, _device: u8, _function: u8) -> (r: bool)
        ensures
            r,
    {
        true
    }

    /// Nothing is set up yet for the shared window.
    pub fn establish_peer_ipc() {
    }
}

/// How often the HPS hook ran.
pub struct HpsHookCounter {
    pub calls: usize,
}

impl HpsHookCounter {
    /// Counts one run of the hook, wrapping.
    pub fn test_hps_hook(&mut self, _thread_id: u64, _is_gpu: bool)
        ensures
            final(self).calls == (if old(self).calls == usize::MAX { 0 } else { (old(self).calls + 1) as usize }),
    {
        self.calls = self.calls.wrapping_add(1);
    }
}

} // verus!
