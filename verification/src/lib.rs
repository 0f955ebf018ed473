//! Userspace UDP data plane: packet buffer pools, lock-free-style ring
//! buffers, a poll-mode driver shell, and a UDP protocol engine, with
//! machine-checked contracts on every operation.

use vstd::prelude::*;

pub mod memory;
pub mod poll;
pub mod queue;
pub mod ring;
pub mod udp;
pub mod utils;

verus! {

/// What a free-running counter holds after adding `b`: counters wrap at
/// 2^64, like the hardware counters they mirror.
pub open spec fn wrap_add64(a: u64, b: int) -> u64 {
    (((a as int) + b) % 0x1_0000_0000_0000_0000) as u64
}

/// Bump a free-running counter, wrapping on overflow.
pub fn counter_add(a: u64, b: u64) -> (r: u64)
    ensures
        r == wrap_add64(a, b as int),
{
    a.wrapping_add(b)
}

/// Counter bumps can be folded: adding `x` and `y` in turn is adding
/// `x + y` at once.
pub proof fn lemma_wrap_add64_assoc(a: u64, x: int, y: int)
    requires
        x >= 0,
        y >= 0,
    ensures
        wrap_add64(wrap_add64(a, x), y) == wrap_add64(a, x + y),
{
    let m = 0x1_0000_0000_0000_0000int;
    vstd::arithmetic::div_mod::lemma_add_mod_noop(a + x, y, m);
    vstd::arithmetic::div_mod::lemma_mod_twice(a + x, m);
    vstd::arithmetic::div_mod::lemma_mod_twice(y, m);
    vstd::arithmetic::div_mod::lemma_add_mod_noop(wrap_add64(a, x) as int, y, m);
}

/// Error kinds surfaced by the data plane, each with a short description.
#[derive(Debug, Clone, PartialEq)]
pub enum Error {
    MemoryAllocation(String),
    PcapError(String),
    InvalidConfig(String),
    QueueError(String),
    NetworkError(String),
    IoError(String),
    ParseError(String),
    NumaError(String),
    OffloadError(String),
}

/// Data plane configuration.
#[derive(Debug, Clone)]
pub struct Config {
    /// Number of memory pools
    pub pool_count: usize,
    /// Size of each memory pool
    pub pool_size: usize,
    /// Number of RX queues
    pub rx_queue_count: usize,
    /// Number of TX queues
    pub tx_queue_count: usize,
    /// RX queue size
    pub rx_queue_size: usize,
    /// TX queue size
    pub tx_queue_size: usize,
    /// Enable huge pages
    pub enable_hugepages: bool,
    /// Enable NUMA awareness
    pub enable_numa: bool,
    /// CPU affinity settings
    pub cpu_affinity: Option<Vec<usize>>,
    /// Network interface name
    pub interface: String,
    /// Hardware offload features
    pub enable_offload: bool,
}

impl Default for Config {
    fn default() -> (r: Self)
        ensures
            r.pool_count == 4,
            r.pool_size == 8192,
            r.rx_queue_count == 4,
            r.tx_queue_count == 4,
            r.rx_queue_size == 4096,
            r.tx_queue_size == 4096,
            r.enable_hugepages,
            r.enable_numa,
            r.cpu_affinity is None,
            r.interface@ == "eth0"@,
            r.enable_offload,
    {
        proof {
            reveal_strlit("eth0");
        }
        Config {
            pool_count: 4,
            pool_size: 8192,
            rx_queue_count: 4,
            tx_queue_count: 4,
            rx_queue_size: 4096,
            tx_queue_size: 4096,
            enable_hugepages: true,
            enable_numa: true,
            cpu_affinity: None,
            interface: "eth0".to_owned(),
            enable_offload: true,
        }
    }
}


/// The top-level data plane context: one memory manager, one poll-mode
/// driver, and one UDP stack, built from a configuration and started and
/// stopped together.
pub struct Xpdk {
    config: Config,
    memory_manager: memory::MemoryManager,
    pmd: poll::PollModeDriver,
    udp_stack: udp::UdpStack,
}

impl Xpdk {
    pub closed spec fn spec_memory_manager(self) -> memory::MemoryManager {
        self.memory_manager
    }

    pub closed spec fn spec_pmd(self) -> poll::PollModeDriver {
        self.pmd
    }

    pub closed spec fn spec_udp_stack(self) -> udp::UdpStack {
        self.udp_stack
    }

    pub closed spec fn wf(self) -> bool {
        &&& self.memory_manager.wf()
        &&& self.pmd.wf()
        &&& self.udp_stack.wf()
    }

    /// Build a context: memory manager, then driver, then stack. No I/O
    /// happens here; opening the capture device is the embedder's job.
    /// Fails exactly on the configurations the driver rejects.
    pub fn new(config: Config) -> (r: Result<Self, Error>)
        ensures
            (config.rx_queue_size <= ring::RING_MAX_CAPACITY && config.rx_queue_count <= 0xFFFF
                && config.tx_queue_count <= 0xFFFF) <==> r is Ok,
            r matches Ok(x) ==> x.wf() && x.spec_udp_stack().spec_sockets().len() == 0
                && x.spec_pmd().spec_rx_queues().len() == config.rx_queue_count && x.spec_pmd().spec_tx_queues().len()
                == config.tx_queue_count && x.spec_memory_manager().spec_pools().len()
                == config.pool_count && !x.spec_pmd().spec_running()
                && !x.spec_udp_stack().spec_running(),
            r matches Err(e) ==> e matches Error::InvalidConfig(_),
    {
        let memory_manager = match memory::MemoryManager::new(&config) {
            Ok(m) => m,
            Err(_) => {
                proof {
                    assert(false);
                }
                return Err(Error::InvalidConfig("memory manager construction failed".to_owned()));
            },
        };
        let pmd = match poll::PollModeDriver::new(&config) {
            Ok(p) => p,
            Err(e) => {
                return Err(e);
            },
        };
        let udp_stack = match udp::UdpStack::new(&config) {
            Ok(s) => s,
            Err(_) => {
                proof {
                    assert(false);
                }
                return Err(Error::InvalidConfig("stack construction failed".to_owned()));
            },
        };
        Ok(Xpdk { config, memory_manager, pmd, udp_stack })
    }

    /// Get the UDP stack.
    pub fn udp_stack(&self) -> (r: &udp::UdpStack)
        ensures
            *r == self.spec_udp_stack(),
    {
        &self.udp_stack
    }

    /// Get the UDP stack (mutable).
    pub fn udp_stack_mut(&mut self) -> (r: &mut udp::UdpStack)
        ensures
            *r == old(self).spec_udp_stack(),
            final(self).spec_udp_stack() == *final(r),
            final(self).spec_pmd() == old(self).spec_pmd(),
            final(self).spec_memory_manager() == old(self).spec_memory_manager(),
    {
        &mut self.udp_stack
    }

    /// Get the poll mode driver.
    pub fn pmd(&self) -> (r: &poll::PollModeDriver)
        ensures
            *r == self.spec_pmd(),
    {
        &self.pmd
    }

    /// Get the memory manager.
    pub fn memory_manager(&self) -> (r: &memory::MemoryManager)
        ensures
            *r == self.spec_memory_manager(),
    {
        &self.memory_manager
    }

    /// Start packet processing: the driver first, the stack after.
    pub fn start(&mut self) -> (r: Result<(), Error>)
        requires
            old(self).wf(),
        ensures
            final(self).wf(),
            r matches Ok(()),
            final(self).spec_pmd().spec_running(),
            final(self).spec_udp_stack().spec_running(),
            final(self).spec_memory_manager() == old(self).spec_memory_manager(),
    {
        let started = self.pmd.start();
        proof {
            assert(started matches Ok(()));
        }
        let stack_started = self.udp_stack.start();
        proof {
            assert(stack_started matches Ok(()));
        }
        Ok(())
    }

    /// Stop packet processing: the stack first, the driver after.
    pub fn stop(&mut self) -> (r: Result<(), Error>)
        requires
            old(self).wf(),
        ensures
            final(self).wf(),
            r matches Ok(()),
            !final(self).spec_pmd().spec_running(),
            !final(self).spec_udp_stack().spec_running(),
            final(self).spec_memory_manager() == old(self).spec_memory_manager(),
    {
        let stack_stopped = self.udp_stack.stop();
        proof {
            assert(stack_stopped matches Ok(()));
        }
        let stopped = self.pmd.stop();
        proof {
            assert(stopped matches Ok(()));
        }
        Ok(())
    }
}

} // verus!
