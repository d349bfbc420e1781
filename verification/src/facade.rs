//! Model of the register facade.
//!
//! The hardware presents one memory-mapped register block per cluster, laid
//! out as below in declaration order; the facade is the host's exclusive typed
//! view of it. Registers come in three widths: the native word `u64`, the
//! per-core flag word `u128` (one bit per core, up to 128 cores), and the
//! signed operand word `i128` for coordinates.
//!
//! `MandCluster` here is the verified model of that block: the write-direction
//! registers are driven by the `load_*` operations, the read-direction ones by
//! the device side (for the model, the [`crate::mock`] module). Every host
//! write must be followed by a settle pause of [`SETTLE_NANOS`] nanoseconds
//! before the next bus transaction; the model records each write together
//! with its settle point in an operation log, and [`lemma_write_settle`]
//! states that between any two writes a settle point lies. The process that
//! drives real hardware realizes each settle point as the actual pause.

use vstd::prelude::*;

verus! {

/// Nanoseconds a register write needs to settle before the next transaction.
pub const SETTLE_NANOS: u64 = 20;

/// One entry of the facade's operation log: a host write to some register, or
/// the settle pause that follows it.
#[derive(Clone, Copy, Debug, PartialEq, Eq, Structural)]
pub enum FacadeOp {
    Write,
    Settle,
}

/// The state of the register block, as contracts speak of it.
pub struct RegBlock {
    pub cores_count: u64,
    pub fixed_size: u64,
    pub fixed_integer_size: u64,
    pub command: u64,
    pub command_status: u64,
    pub core_address: u64,
    pub cores_busy_flags: u128,
    pub cores_valid_flags: u128,
    pub core_result: u64,
    pub core_busy: u64,
    pub core_valid: u64,
    pub core_itterations_max: u64,
    pub core_x: i128,
    pub core_y: i128,
    /// Host writes and settle pauses, in the order they happened.
    pub ops: Seq<FacadeOp>,
}

/// The typed view of one cluster's register block.
pub struct MandCluster {
    cores_count: u64,
    fixed_size: u64,
    fixed_integer_size: u64,
    command: u64,
    command_status: u64,
    core_address: u64,
    cores_busy_flags: u128,
    cores_valid_flags: u128,
    core_result: u64,
    core_busy: u64,
    core_valid: u64,
    core_itterations_max: u64,
    core_x: i128,
    core_y: i128,
    ops: Ghost<Seq<FacadeOp>>,
}

/// Every write in the log is followed, at the very next position, by its
/// settle pause.
pub open spec fn ops_settled(ops: Seq<FacadeOp>) -> bool {
    forall|j: int|
        0 <= j < ops.len() && #[trigger] ops[j] == FacadeOp::Write ==> j + 1 < ops.len()
            && ops[j + 1] == FacadeOp::Settle
}

impl View for MandCluster {
    type V = RegBlock;

    closed spec fn view(&self) -> RegBlock {
        RegBlock {
            cores_count: self.cores_count,
            fixed_size: self.fixed_size,
            fixed_integer_size: self.fixed_integer_size,
            command: self.command,
            command_status: self.command_status,
            core_address: self.core_address,
            cores_busy_flags: self.cores_busy_flags,
            cores_valid_flags: self.cores_valid_flags,
            core_result: self.core_result,
            core_busy: self.core_busy,
            core_valid: self.core_valid,
            core_itterations_max: self.core_itterations_max,
            core_x: self.core_x,
            core_y: self.core_y,
            ops: self.ops@,
        }
    }
}

impl MandCluster {
    /// Whether the block is in a state the protocol allows: a plausible core
    /// count and a settled operation log.
    pub open spec fn wf(self) -> bool {
        &&& 1 <= self@.cores_count <= 128
        &&& ops_settled(self@.ops)
    }

    /// A freshly mapped block: the metadata registers as the hardware build
    /// presents them, every other register zero, and nothing written yet.
    pub fn new(cores_count: u64, fixed_size: u64, fixed_integer_size: u64) -> (c: Self)
        requires
            1 <= cores_count <= 128,
        ensures
            c.wf(),
            c@ == (RegBlock {
                cores_count,
                fixed_size,
                fixed_integer_size,
                command: 0,
                command_status: 0,
                core_address: 0,
                cores_busy_flags: 0,
                cores_valid_flags: 0,
                core_result: 0,
                core_busy: 0,
                core_valid: 0,
                core_itterations_max: 0,
                core_x: 0,
                core_y: 0,
                ops: Seq::<FacadeOp>::empty(),
            }),
    {
        MandCluster {
            cores_count,
            fixed_size,
            fixed_integer_size,
            command: 0,
            command_status: 0,
            core_address: 0,
            cores_busy_flags: 0,
            cores_valid_flags: 0,
            core_result: 0,
            core_busy: 0,
            core_valid: 0,
            core_itterations_max: 0,
            core_x: 0,
            core_y: 0,
            ops: Ghost(Seq::empty()),
        }
    }

    /// Write the command register, then settle.
    pub fn load_command(&mut self, command: u64)
        ensures
            final(self)@ == (RegBlock {
                command,
                ops: old(self)@.ops + seq![FacadeOp::Write, FacadeOp::Settle],
                ..old(self)@
            }),
            old(self).wf() ==> final(self).wf(),
    {
        self.command = command;
        self.ops = Ghost(self.ops@ + seq![FacadeOp::Write, FacadeOp::Settle]);
        proof {
            if ops_settled(old(self)@.ops) {
                lemma_ops_stay_settled(old(self)@.ops);
            }
        }
    }

    /// Write the core-select register, then settle.
    pub fn load_core_address(&mut self, core_address: u64)
        ensures
            final(self)@ == (RegBlock {
                core_address,
                ops: old(self)@.ops + seq![FacadeOp::Write, FacadeOp::Settle],
                ..old(self)@
            }),
            old(self).wf() ==> final(self).wf(),
    {
        self.core_address = core_address;
        self.ops = Ghost(self.ops@ + seq![FacadeOp::Write, FacadeOp::Settle]);
        proof {
            if ops_settled(old(self)@.ops) {
                lemma_ops_stay_settled(old(self)@.ops);
            }
        }
    }

    /// Write the selected core's x operand register, then settle.
    pub fn load_core_x(&mut self, core_x: i128)
        ensures
            final(self)@ == (RegBlock {
                core_x,
                ops: old(self)@.ops + seq![FacadeOp::Write, FacadeOp::Settle],
                ..old(self)@
            }),
            old(self).wf() ==> final(self).wf(),
    {
        self.core_x = core_x;
        self.ops = Ghost(self.ops@ + seq![FacadeOp::Write, FacadeOp::Settle]);
        proof {
            if ops_settled(old(self)@.ops) {
                lemma_ops_stay_settled(old(self)@.ops);
            }
        }
    }

    /// Write the selected core's y operand register, then settle.
    pub fn load_core_y(&mut self, core_y: i128)
        ensures
            final(self)@ == (RegBlock {
                core_y,
                ops: old(self)@.ops + seq![FacadeOp::Write, FacadeOp::Settle],
                ..old(self)@
            }),
            old(self).wf() ==> final(self).wf(),
    {
        self.core_y = core_y;
        self.ops = Ghost(self.ops@ + seq![FacadeOp::Write, FacadeOp::Settle]);
        proof {
            if ops_settled(old(self)@.ops) {
                lemma_ops_stay_settled(old(self)@.ops);
            }
        }
    }

    /// Write the selected core's iteration cap register, then settle.
    pub fn load_core_itterations_max(&mut self, core_itterations_max: u64)
        ensures
            final(self)@ == (RegBlock {
                core_itterations_max,
                ops: old(self)@.ops + seq![FacadeOp::Write, FacadeOp::Settle],
                ..old(self)@
            }),
            old(self).wf() ==> final(self).wf(),
    {
        self.core_itterations_max = core_itterations_max;
        self.ops = Ghost(self.ops@ + seq![FacadeOp::Write, FacadeOp::Settle]);
        proof {
            if ops_settled(old(self)@.ops) {
                lemma_ops_stay_settled(old(self)@.ops);
            }
        }
    }

    /// Read the number of cores behind this block.
    pub fn cores_count(&self) -> (r: u64)
        ensures
            r == self@.cores_count,
    {
        self.cores_count
    }

    /// Read the fixed-point operand width of the build.
    pub fn fixed_size(&self) -> (r: u64)
        ensures
            r == self@.fixed_size,
    {
        self.fixed_size
    }

    /// Read the integer part width of the build's fixed-point format.
    pub fn fixed_integer_size(&self) -> (r: u64)
        ensures
            r == self@.fixed_integer_size,
    {
        self.fixed_integer_size
    }

    /// Read back the command register.
    pub fn command(&self) -> (r: u64)
        ensures
            r == self@.command,
    {
        self.command
    }

    /// Read the status of the last command.
    pub fn command_status(&self) -> (r: u64)
        ensures
            r == self@.command_status,
    {
        self.command_status
    }

    /// Read back the core-select register.
    pub fn core_address(&self) -> (r: u64)
        ensures
            r == self@.core_address,
    {
        self.core_address
    }

    /// Read the busy flag word; bit `i` is set iff core `i` is busy.
    pub fn cores_busy_flags(&self) -> (r: u128)
        ensures
            r == self@.cores_busy_flags,
    {
        self.cores_busy_flags
    }

    /// Read the valid flag word; bit `i` is set iff core `i` holds a result.
    pub fn cores_valid_flags(&self) -> (r: u128)
        ensures
            r == self@.cores_valid_flags,
    {
        self.cores_valid_flags
    }

    /// Read the result register of the selected core.
    pub fn core_result(&self) -> (r: u64)
        ensures
            r == self@.core_result,
    {
        self.core_result
    }

    /// Read the busy word of the selected core.
    pub fn core_busy(&self) -> (r: u64)
        ensures
            r == self@.core_busy,
    {
        self.core_busy
    }

    /// Read the valid word of the selected core.
    pub fn core_valid(&self) -> (r: u64)
        ensures
            r == self@.core_valid,
    {
        self.core_valid
    }

    /// Read back the selected core's iteration cap register.
    pub fn core_itterations_max(&self) -> (r: u64)
        ensures
            r == self@.core_itterations_max,
    {
        self.core_itterations_max
    }

    /// Read back the selected core's x operand register.
    pub fn core_x(&self) -> (r: i128)
        ensures
            r == self@.core_x,
    {
        self.core_x
    }

    /// Read back the selected core's y operand register.
    pub fn core_y(&self) -> (r: i128)
        ensures
            r == self@.core_y,
    {
        self.core_y
    }

    /// Device-side update of the status register. Only the cluster model may
    /// move the read-direction registers; this is not a host write and takes
    /// no settle pause.
    pub(crate) fn hw_set_command_status(&mut self, v: u64)
        ensures
            final(self)@ == (RegBlock { command_status: v, ..old(self)@ }),
    {
        self.command_status = v;
    }

    /// Device-side update of the busy flag word.
    pub(crate) fn hw_set_cores_busy_flags(&mut self, v: u128)
        ensures
            final(self)@ == (RegBlock { cores_busy_flags: v, ..old(self)@ }),
    {
        self.cores_busy_flags = v;
    }

    /// Device-side update of the valid flag word.
    pub(crate) fn hw_set_cores_valid_flags(&mut self, v: u128)
        ensures
            final(self)@ == (RegBlock { cores_valid_flags: v, ..old(self)@ }),
    {
        self.cores_valid_flags = v;
    }

    /// Device-side update of the result register.
    pub(crate) fn hw_set_core_result(&mut self, v: u64)
        ensures
            final(self)@ == (RegBlock { core_result: v, ..old(self)@ }),
    {
        self.core_result = v;
    }
}

/// Appending a write with its settle pause keeps a log settled.
proof fn lemma_ops_stay_settled(ops: Seq<FacadeOp>)
    requires
        ops_settled(ops),
    ensures
        ops_settled(ops + seq![FacadeOp::Write, FacadeOp::Settle]),
{
    let ext = ops + seq![FacadeOp::Write, FacadeOp::Settle];
    assert forall|j: int| 0 <= j < ext.len() && #[trigger] ext[j] == FacadeOp::Write implies j + 1
        < ext.len() && ext[j + 1] == FacadeOp::Settle by {
        if j < ops.len() {
            assert(ext[j] == ops[j]);
            if j + 1 < ops.len() {
                assert(ext[j + 1] == ops[j + 1]);
            }
        }
    }
}

/// Between any two host writes there is a settle pause: the facade waits
/// [`SETTLE_NANOS`] nanoseconds after each write before it touches the bus
/// again.
pub proof fn lemma_write_settle(ops: Seq<FacadeOp>, j: int, k: int)
    requires
        ops_settled(ops),
        0 <= j < k < ops.len(),
        ops[j] == FacadeOp::Write,
        ops[k] == FacadeOp::Write,
    ensures
        exists|m: int| j < m < k && ops[m] == FacadeOp::Settle,
{
    assert(ops[j + 1] == FacadeOp::Settle);
    assert(j + 1 < k) by {
        if j + 1 == k {
            assert(ops[k] == FacadeOp::Settle);
        }
    }
    assert(j < j + 1 < k && ops[j + 1] == FacadeOp::Settle);
}

} // verus!
