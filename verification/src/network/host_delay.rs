//! The delays inside a node, on the way from a GPU over NVLink, NVSwitch or PCIe to a NIC.
use vstd::prelude::*;

verus! {

/// How two GPUs are connected.
#[derive(Debug, Clone, Copy, PartialEq, Eq, Structural)]
pub enum GpuLink {
    /// A direct NVLink inside the node.
    NvLink,
    /// An NVSwitch that connects all GPUs of the node.
    NvSwitch,
    /// PCIe and the NIC, across nodes.
    PcieNic,
}

impl GpuLink {
    /// The one-way delay in nanoseconds.
    pub open spec fn delay(self) -> u64 {
        match self {
            GpuLink::NvLink => 100,
            GpuLink::NvSwitch => 200,
            GpuLink::PcieNic => 2000,
        }
    }

    /// The one-way delay in nanoseconds.
    pub fn delay_ns(&self) -> (d: u64)
        ensures
            d == self.delay(),
    {
        match self {
            GpuLink::NvLink => 100,
            GpuLink::NvSwitch => 200,
            GpuLink::PcieNic => 2000,
        }
    }

    /// The bandwidth in bits per second.
    pub fn bandwidth_bps(&self) -> (b: u64)
        ensures
            b == match *self {
                GpuLink::NvLink => 600_000_000_000u64,
                GpuLink::NvSwitch => 600_000_000_000u64,
                GpuLink::PcieNic => 400_000_000_000u64,
            },
    {
        match self {
            GpuLink::NvLink => 600_000_000_000,
            GpuLink::NvSwitch => 600_000_000_000,
            GpuLink::PcieNic => 400_000_000_000,
        }
    }
}

/// The GPUs and NICs of a node.
#[derive(Debug, Clone)]
pub struct NodeTopology {
    pub num_gpus: u32,
    pub num_nics: u32,
    /// For each GPU the NIC that is closest to it.
    pub gpu_to_nic: Vec<u32>,
    /// How each GPU is connected to each GPU.
    pub gpu_links: Vec<Vec<GpuLink>>,
    /// For each NIC the delay to each GPU, in nanoseconds.
    pub nic_to_gpu_delay: Vec<Vec<u64>>,
}

/// The delay between a GPU and a NIC for which the node knows none.
pub const FAR_NIC_DELAY_NS: u64 = 3000;

impl NodeTopology {
    /// The tables cover every GPU and NIC.
    pub open spec fn wf(self) -> bool {
        self.gpu_table_fits() && self.nic_table_fits()
    }

    /// The table of the links between GPUs covers every GPU.
    pub open spec fn gpu_table_fits(self) -> bool {
        &&& self.gpu_links@.len() >= self.num_gpus
        &&& forall|i: int|
            0 <= i < self.num_gpus ==> (#[trigger] self.gpu_links@[i])@.len() >= self.num_gpus
    }

    /// The table of the delays to NICs covers every GPU and NIC.
    pub open spec fn nic_table_fits(self) -> bool {
        &&& self.nic_to_gpu_delay@.len() >= self.num_nics
        &&& forall|i: int|
            0 <= i < self.num_nics ==> (#[trigger] self.nic_to_gpu_delay@[i])@.len()
                >= self.num_gpus
    }

    /// A node of eight GPUs behind an NVSwitch, each next to a NIC of its own.
    pub fn typical_8gpu_8nic() -> (n: Self)
        ensures
            n.wf(),
            n.num_gpus == 8,
            n.num_nics == 8,
            n.gpu_to_nic@ == Seq::new(8, |i: int| i as u32),
            n.gpu_links@.len() == 8,
            forall|i: int|
                0 <= i < 8 ==> (#[trigger] n.gpu_links@[i])@ == Seq::new(
                    8,
                    |j: int|
                        if i == j {
                            GpuLink::NvLink
                        } else {
                            GpuLink::NvSwitch
                        },
                ),
            n.nic_to_gpu_delay@.len() == 8,
            forall|i: int|
                0 <= i < 8 ==> (#[trigger] n.nic_to_gpu_delay@[i])@ == Seq::new(
                    8,
                    |j: int|
                        if i == j {
                            500u64
                        } else {
                            FAR_NIC_DELAY_NS
                        },
                ),
    {
        let mut gpu_to_nic: Vec<u32> = Vec::new();
        let mut gpu_links: Vec<Vec<GpuLink>> = Vec::new();
        let mut nic_to_gpu_delay: Vec<Vec<u64>> = Vec::new();
        for i in 0..8u32
            invariant
                gpu_to_nic@ == Seq::new(i as nat, |k: int| k as u32),
                gpu_links@.len() == i,
                forall|k: int|
                    0 <= k < i ==> (#[trigger] gpu_links@[k])@ == Seq::new(
                        8,
                        |j: int|
                            if k == j {
                                GpuLink::NvLink
                            } else {
                                GpuLink::NvSwitch
                            },
                    ),
                nic_to_gpu_delay@.len() == i,
                forall|k: int|
                    0 <= k < i ==> (#[trigger] nic_to_gpu_delay@[k])@ == Seq::new(
                        8,
                        |j: int|
                            if k == j {
                                500u64
                            } else {
                                FAR_NIC_DELAY_NS
                            },
                    ),
        {
            let mut links: Vec<GpuLink> = Vec::new();
            let mut delays: Vec<u64> = Vec::new();
            for j in 0..8u32
                invariant
                    links@ == Seq::new(
                        j as nat,
                        |k: int|
                            if i == k {
                                GpuLink::NvLink
                            } else {
                                GpuLink::NvSwitch
                            },
                    ),
                    delays@ == Seq::new(
                        j as nat,
                        |k: int|
                            if i == k {
                                500u64
                            } else {
                                FAR_NIC_DELAY_NS
                            },
                    ),
            {
                links.push(
                    if i == j {
                        GpuLink::NvLink
                    } else {
                        GpuLink::NvSwitch
                    },
                );
                delays.push(
                    if i == j {
                        500
                    } else {
                        FAR_NIC_DELAY_NS
                    },
                );
            }
            gpu_to_nic.push(i);
            gpu_links.push(links);
            nic_to_gpu_delay.push(delays);
        }
        NodeTopology { num_gpus: 8, num_nics: 8, gpu_to_nic, gpu_links, nic_to_gpu_delay }
    }

    /// The delay between two GPUs; one that the node does not have is across nodes.
    pub fn gpu_to_gpu_delay(&self, src_gpu: u32, dst_gpu: u32) -> (d: u64)
        requires
            self.gpu_table_fits(),
        ensures
            d == if src_gpu < self.num_gpus && dst_gpu < self.num_gpus {
                self.gpu_links@[src_gpu as int]@[dst_gpu as int].delay()
            } else {
                GpuLink::PcieNic.delay()
            },
    {
        if src_gpu < self.num_gpus && dst_gpu < self.num_gpus {
            self.gpu_links[src_gpu as usize][dst_gpu as usize].delay_ns()
        } else {
            GpuLink::PcieNic.delay_ns()
        }
    }

    /// The delay from a GPU to a NIC.
    pub fn gpu_to_nic_delay(&self, gpu: u32, nic: u32) -> (d: u64)
        requires
            self.nic_table_fits(),
        ensures
            d == if nic < self.num_nics && gpu < self.num_gpus {
                self.nic_to_gpu_delay@[nic as int]@[gpu as int]
            } else {
                FAR_NIC_DELAY_NS
            },
    {
        if nic < self.num_nics && gpu < self.num_gpus {
            self.nic_to_gpu_delay[nic as usize][gpu as usize]
        } else {
            FAR_NIC_DELAY_NS
        }
    }
}

} // verus!
