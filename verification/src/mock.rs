//! Model of the cluster hardware behind the register block.
//!
//! `MockCluster` owns a register facade and plays the device side of the
//! protocol: a write to the command register acts on the core selected by
//! `core_address` and leaves the outcome in `command_status`, exactly as the
//! command/core-select protocol prescribes. Tests script per-core completions
//! with [`MockCluster::complete_core`] and transient start rejections with
//! [`MockCluster::reject_next_starts`]; the scheduler drives the model
//! through the same load and read operations it would use on hardware.

use vstd::prelude::*;

use crate::codec::{ClusterCommand, ClusterCommandStatus, spec_encode_command, spec_encode_status};
use crate::facade::{FacadeOp, MandCluster, RegBlock, ops_settled};

verus! {

/// Whether bit `i` of the flag word `f` is set; bit `i` speaks of core `i`.
pub open spec fn bit_set(f: u128, i: u128) -> bool {
    f & (1u128 << i) != 0
}

/// Whether bit `i` of `f` is set, for a flag word just read.
pub fn flag_bit(f: u128, i: u64) -> (b: bool)
    requires
        i < 128,
    ensures
        b == bit_set(f, i as u128),
{
    f & (1u128 << i) != 0
}

/// Setting bit `i` leaves exactly the bits of `f` and bit `i` set.
pub proof fn lemma_bit_or(f: u128, i: u128, j: u128)
    requires
        i < 128,
        j < 128,
    ensures
        bit_set(f | (1u128 << i), j) == (i == j || bit_set(f, j)),
{
    assert(((f | (1u128 << i)) & (1u128 << j) != 0) == (i == j || f & (1u128 << j) != 0))
        by (bit_vector)
        requires
            i < 128,
            j < 128,
    ;
}

/// Clearing bit `i` leaves exactly the bits of `f` except bit `i` set.
pub proof fn lemma_bit_clear(f: u128, i: u128, j: u128)
    requires
        i < 128,
        j < 128,
    ensures
        bit_set(f & !(1u128 << i), j) == (i != j && bit_set(f, j)),
{
    assert(((f & !(1u128 << i)) & (1u128 << j) != 0) == (i != j && f & (1u128 << j) != 0))
        by (bit_vector)
        requires
            i < 128,
            j < 128,
    ;
}

/// One command write, as the model logs it: the command word and the core
/// that was selected when it was issued.
pub struct CmdEvent {
    pub cmd: u64,
    pub core: u64,
}

/// What one accepted Start command latched out of the operand registers:
/// the selected core and the point and iteration cap it was started with.
pub struct StartLatch {
    pub core: u64,
    pub x: i128,
    pub y: i128,
    pub itterations_max: u64,
}

/// The state of the cluster model, as contracts speak of it.
pub struct MockView {
    /// The register block.
    pub regs: RegBlock,
    /// The result each core will offer on its next harvest, by CoreId.
    pub results: Seq<u64>,
    /// How many upcoming Start commands the cluster still answers CoreBusy.
    pub reject_starts: u64,
    /// Every command write so far, oldest first.
    pub cmd_log: Seq<CmdEvent>,
    /// What every accepted Start latched, oldest first.
    pub starts: Seq<StartLatch>,
}

/// The cluster model: a register facade plus the device that answers it.
pub struct MockCluster {
    regs: MandCluster,
    results: Vec<u64>,
    reject_starts: u64,
    cmd_log: Ghost<Seq<CmdEvent>>,
    starts: Ghost<Seq<StartLatch>>,
}

impl View for MockCluster {
    type V = MockView;

    closed spec fn view(&self) -> MockView {
        MockView {
            regs: self.regs@,
            results: self.results@,
            reject_starts: self.reject_starts,
            cmd_log: self.cmd_log@,
            starts: self.starts@,
        }
    }
}

impl MockCluster {
    /// Whether the model is in a state the protocol allows.
    pub open spec fn wf(self) -> bool {
        &&& 1 <= self@.regs.cores_count <= 128
        &&& ops_settled(self@.regs.ops)
        &&& self@.results.len() == self@.regs.cores_count
    }

    /// A cluster of `cores_count` idle cores presenting the given fixed-point
    /// build parameters in its metadata registers.
    pub fn new(cores_count: u64, fixed_size: u64, fixed_integer_size: u64) -> (c: Self)
        requires
            1 <= cores_count <= 128,
        ensures
            c.wf(),
            c@.regs == (RegBlock {
                cores_count,
                fixed_size,
                fixed_integer_size,
                command: 0,
                command_status: 0,
                core_address: 0,
                cores_busy_flags: 0,
                cores_valid_flags: 0,
                core_result: 0,
                core_busy: 0,
                core_valid: 0,
                core_itterations_max: 0,
                core_x: 0,
                core_y: 0,
                ops: Seq::<FacadeOp>::empty(),
            }),
            c@.results =~= Seq::<u64>::new(cores_count as nat, |i: int| 0u64),
            c@.reject_starts == 0,
            c@.cmd_log == Seq::<CmdEvent>::empty(),
            c@.starts == Seq::<StartLatch>::empty(),
    {
        let regs = MandCluster::new(cores_count, fixed_size, fixed_integer_size);
        let mut results: Vec<u64> = Vec::new();
        let mut i: u64 = 0;
        while i < cores_count
            invariant
                i <= cores_count,
                results@ =~= Seq::<u64>::new(i as nat, |k: int| 0u64),
            decreases cores_count - i,
        {
            results.push(0);
            i += 1;
        }
        MockCluster {
            regs,
            results,
            reject_starts: 0,
            cmd_log: Ghost(Seq::empty()),
            starts: Ghost(Seq::empty()),
        }
    }

    /// Write the command register; the cluster acts on the core selected by
    /// `core_address` and leaves the outcome in `command_status`.
    ///
    /// The word is latched and the write settles. NOP succeeds. LoadResult
    /// moves the selected core's result into `core_result` when that core's
    /// valid bit is set, and reports AfterReset when it is not. Start marks
    /// the selected idle core busy, rejecting with CoreBusy a core already
    /// busy, or any core while a scripted rejection is pending. Reset clears
    /// the selected core's busy and valid bits. A word above 3 is
    /// InvalidCommand; a core address beyond the core count is InvalidCore.
    #[verifier::rlimit(60)]
    pub fn load_command(&mut self, command: u64)
        requires
            old(self).wf(),
        ensures
            final(self).wf(),
            ({
                let pre = old(self)@;
                let post = final(self)@;
                let addr = pre.regs.core_address;
                let cnt = pre.regs.cores_count;
                let success = spec_encode_status(ClusterCommandStatus::Success);
                &&& post.regs.command == command
                &&& post.regs.ops == pre.regs.ops + seq![FacadeOp::Write, FacadeOp::Settle]
                &&& post.cmd_log == pre.cmd_log.push(CmdEvent { cmd: command, core: addr })
                &&& (command == spec_encode_command(ClusterCommand::Start) && addr < cnt
                    && pre.reject_starts == 0 && !bit_set(pre.regs.cores_busy_flags, addr as u128))
                    ==> post.starts == pre.starts.push(
                    (StartLatch {
                        core: addr,
                        x: pre.regs.core_x,
                        y: pre.regs.core_y,
                        itterations_max: pre.regs.core_itterations_max,
                    }),
                )
                &&& !(command == spec_encode_command(ClusterCommand::Start) && addr < cnt
                    && pre.reject_starts == 0 && !bit_set(pre.regs.cores_busy_flags, addr as u128))
                    ==> post.starts == pre.starts
                &&& post.results == pre.results
                &&& post.regs.cores_count == cnt
                &&& post.regs.fixed_size == pre.regs.fixed_size
                &&& post.regs.fixed_integer_size == pre.regs.fixed_integer_size
                &&& post.regs.core_address == addr
                &&& post.regs.core_x == pre.regs.core_x
                &&& post.regs.core_y == pre.regs.core_y
                &&& post.regs.core_itterations_max == pre.regs.core_itterations_max
                &&& post.regs.core_busy == pre.regs.core_busy
                &&& post.regs.core_valid == pre.regs.core_valid
                &&& (command == spec_encode_command(ClusterCommand::NOP) ==> {
                    &&& post.regs.command_status == success
                    &&& post.regs.cores_busy_flags == pre.regs.cores_busy_flags
                    &&& post.regs.cores_valid_flags == pre.regs.cores_valid_flags
                    &&& post.regs.core_result == pre.regs.core_result
                    &&& post.reject_starts == pre.reject_starts
                })
                &&& (command == spec_encode_command(ClusterCommand::LoadResult) ==> {
                    &&& post.regs.cores_busy_flags == pre.regs.cores_busy_flags
                    &&& post.regs.cores_valid_flags == pre.regs.cores_valid_flags
                    &&& post.reject_starts == pre.reject_starts
                    &&& (addr >= cnt ==> post.regs.command_status == spec_encode_status(
                        ClusterCommandStatus::InvalidCore,
                    ) && post.regs.core_result == pre.regs.core_result)
                    &&& (addr < cnt && bit_set(pre.regs.cores_valid_flags, addr as u128) ==> {
                        &&& post.regs.command_status == success
                        &&& post.regs.core_result == pre.results[addr as int]
                    })
                    &&& (addr < cnt && !bit_set(pre.regs.cores_valid_flags, addr as u128) ==> {
                        &&& post.regs.command_status == spec_encode_status(
                            ClusterCommandStatus::AfterReset,
                        )
                        &&& post.regs.core_result == pre.regs.core_result
                    })
                })
                &&& (command == spec_encode_command(ClusterCommand::Start) ==> {
                    &&& post.regs.core_result == pre.regs.core_result
                    &&& (addr >= cnt ==> {
                        &&& post.regs.command_status == spec_encode_status(
                            ClusterCommandStatus::InvalidCore,
                        )
                        &&& post.regs.cores_busy_flags == pre.regs.cores_busy_flags
                        &&& post.regs.cores_valid_flags == pre.regs.cores_valid_flags
                        &&& post.reject_starts == pre.reject_starts
                    })
                    &&& (addr < cnt && pre.reject_starts > 0 ==> {
                        &&& post.regs.command_status == spec_encode_status(
                            ClusterCommandStatus::CoreBusy,
                        )
                        &&& post.regs.cores_busy_flags == pre.regs.cores_busy_flags
                        &&& post.regs.cores_valid_flags == pre.regs.cores_valid_flags
                        &&& post.reject_starts == pre.reject_starts - 1
                    })
                    &&& (addr < cnt && pre.reject_starts == 0 && bit_set(
                        pre.regs.cores_busy_flags,
                        addr as u128,
                    ) ==> {
                        &&& post.regs.command_status == spec_encode_status(
                            ClusterCommandStatus::CoreBusy,
                        )
                        &&& post.regs.cores_busy_flags == pre.regs.cores_busy_flags
                        &&& post.regs.cores_valid_flags == pre.regs.cores_valid_flags
                        &&& post.reject_starts == pre.reject_starts
                    })
                    &&& (addr < cnt && pre.reject_starts == 0 && !bit_set(
                        pre.regs.cores_busy_flags,
                        addr as u128,
                    ) ==> {
                        &&& post.regs.command_status == success
                        &&& post.regs.cores_busy_flags == pre.regs.cores_busy_flags | (1u128 << (
                        addr as u128))
                        &&& post.regs.cores_valid_flags == pre.regs.cores_valid_flags & !(1u128 << (
                        addr as u128))
                        &&& post.reject_starts == pre.reject_starts
                    })
                })
                &&& (command == spec_encode_command(ClusterCommand::Reset) ==> {
                    &&& post.regs.core_result == pre.regs.core_result
                    &&& post.reject_starts == pre.reject_starts
                    &&& (addr >= cnt ==> {
                        &&& post.regs.command_status == spec_encode_status(
                            ClusterCommandStatus::InvalidCore,
                        )
                        &&& post.regs.cores_busy_flags == pre.regs.cores_busy_flags
                        &&& post.regs.cores_valid_flags == pre.regs.cores_valid_flags
                    })
                    &&& (addr < cnt ==> {
                        &&& post.regs.command_status == success
                        &&& post.regs.cores_busy_flags == pre.regs.cores_busy_flags & !(1u128 << (
                        addr as u128))
                        &&& post.regs.cores_valid_flags == pre.regs.cores_valid_flags & !(1u128 << (
                        addr as u128))
                    })
                })
                &&& (command > 3 ==> {
                    &&& post.regs.command_status == spec_encode_status(
                        ClusterCommandStatus::InvalidCommand,
                    )
                    &&& post.regs.cores_busy_flags == pre.regs.cores_busy_flags
                    &&& post.regs.cores_valid_flags == pre.regs.cores_valid_flags
                    &&& post.regs.core_result == pre.regs.core_result
                    &&& post.reject_starts == pre.reject_starts
                })
            }),
    {
        let addr = self.regs.core_address();
        self.regs.load_command(command);
        let cores_count = self.regs.cores_count();
        match ClusterCommand::decode(command) {
            Some(ClusterCommand::NOP) => {
                self.regs.hw_set_command_status(ClusterCommandStatus::Success.encode());
            },
            Some(ClusterCommand::LoadResult) => {
                if addr >= cores_count {
                    self.regs.hw_set_command_status(ClusterCommandStatus::InvalidCore.encode());
                } else if flag_bit(self.regs.cores_valid_flags(), addr) {
                    let r = self.results[addr as usize];
                    self.regs.hw_set_core_result(r);
                    self.regs.hw_set_command_status(ClusterCommandStatus::Success.encode());
                } else {
                    self.regs.hw_set_command_status(ClusterCommandStatus::AfterReset.encode());
                }
            },
            Some(ClusterCommand::Start) => {
                if addr >= cores_count {
                    self.regs.hw_set_command_status(ClusterCommandStatus::InvalidCore.encode());
                } else if self.reject_starts > 0 {
                    self.reject_starts = self.reject_starts - 1;
                    self.regs.hw_set_command_status(ClusterCommandStatus::CoreBusy.encode());
                } else if flag_bit(self.regs.cores_busy_flags(), addr) {
                    self.regs.hw_set_command_status(ClusterCommandStatus::CoreBusy.encode());
                } else {
                    self.starts = Ghost(
                        self.starts@.push(
                            StartLatch {
                                core: addr,
                                x: self.regs@.core_x,
                                y: self.regs@.core_y,
                                itterations_max: self.regs@.core_itterations_max,
                            },
                        ),
                    );
                    let busy = self.regs.cores_busy_flags() | (1u128 << addr);
                    let valid = self.regs.cores_valid_flags() & !(1u128 << addr);
                    self.regs.hw_set_cores_busy_flags(busy);
                    self.regs.hw_set_cores_valid_flags(valid);
                    self.regs.hw_set_command_status(ClusterCommandStatus::Success.encode());
                }
            },
            Some(ClusterCommand::Reset) => {
                if addr >= cores_count {
                    self.regs.hw_set_command_status(ClusterCommandStatus::InvalidCore.encode());
                } else {
                    let busy = self.regs.cores_busy_flags() & !(1u128 << addr);
                    let valid = self.regs.cores_valid_flags() & !(1u128 << addr);
                    self.regs.hw_set_cores_busy_flags(busy);
                    self.regs.hw_set_cores_valid_flags(valid);
                    self.regs.hw_set_command_status(ClusterCommandStatus::Success.encode());
                }
            },
            None => {
                self.regs.hw_set_command_status(ClusterCommandStatus::InvalidCommand.encode());
            },
        }
        self.cmd_log = Ghost(self.cmd_log@.push(CmdEvent { cmd: command, core: addr }));
    }

    /// Write the core-select register.
    pub fn load_core_address(&mut self, core_address: u64)
        ensures
            final(self)@ == (MockView {
                regs: RegBlock {
                    core_address,
                    ops: old(self)@.regs.ops + seq![FacadeOp::Write, FacadeOp::Settle],
                    ..old(self)@.regs
                },
                ..old(self)@
            }),
            old(self).wf() ==> final(self).wf(),
    {
        self.regs.load_core_address(core_address);
    }

    /// Write the selected core's x operand register.
    pub fn load_core_x(&mut self, core_x: i128)
        ensures
            final(self)@ == (MockView {
                regs: RegBlock {
                    core_x,
                    ops: old(self)@.regs.ops + seq![FacadeOp::Write, FacadeOp::Settle],
                    ..old(self)@.regs
                },
                ..old(self)@
            }),
            old(self).wf() ==> final(self).wf(),
    {
        self.regs.load_core_x(core_x);
    }

    /// Write the selected core's y operand register.
    pub fn load_core_y(&mut self, core_y: i128)
        ensures
            final(self)@ == (MockView {
                regs: RegBlock {
                    core_y,
                    ops: old(self)@.regs.ops + seq![FacadeOp::Write, FacadeOp::Settle],
                    ..old(self)@.regs
                },
                ..old(self)@
            }),
            old(self).wf() ==> final(self).wf(),
    {
        self.regs.load_core_y(core_y);
    }

    /// Write the selected core's iteration cap register.
    pub fn load_core_itterations_max(&mut self, core_itterations_max: u64)
        ensures
            final(self)@ == (MockView {
                regs: RegBlock {
                    core_itterations_max,
                    ops: old(self)@.regs.ops + seq![FacadeOp::Write, FacadeOp::Settle],
                    ..old(self)@.regs
                },
                ..old(self)@
            }),
            old(self).wf() ==> final(self).wf(),
    {
        self.regs.load_core_itterations_max(core_itterations_max);
    }

    /// Read the number of cores.
    pub fn cores_count(&self) -> (r: u64)
        ensures
            r == self@.regs.cores_count,
    {
        self.regs.cores_count()
    }

    /// Read the fixed-point operand width of the build.
    pub fn fixed_size(&self) -> (r: u64)
        ensures
            r == self@.regs.fixed_size,
    {
        self.regs.fixed_size()
    }

    /// Read the integer part width of the build's fixed-point format.
    pub fn fixed_integer_size(&self) -> (r: u64)
        ensures
            r == self@.regs.fixed_integer_size,
    {
        self.regs.fixed_integer_size()
    }

    /// Read back the command register.
    pub fn command(&self) -> (r: u64)
        ensures
            r == self@.regs.command,
    {
        self.regs.command()
    }

    /// Read the status of the last command.
    pub fn command_status(&self) -> (r: u64)
        ensures
            r == self@.regs.command_status,
    {
        self.regs.command_status()
    }

    /// Read back the core-select register.
    pub fn core_address(&self) -> (r: u64)
        ensures
            r == self@.regs.core_address,
    {
        self.regs.core_address()
    }

    /// Read the busy flag word.
    pub fn cores_busy_flags(&self) -> (r: u128)
        ensures
            r == self@.regs.cores_busy_flags,
    {
        self.regs.cores_busy_flags()
    }

    /// Read the valid flag word.
    pub fn cores_valid_flags(&self) -> (r: u128)
        ensures
            r == self@.regs.cores_valid_flags,
    {
        self.regs.cores_valid_flags()
    }

    /// Read the result register of the selected core.
    pub fn core_result(&self) -> (r: u64)
        ensures
            r == self@.regs.core_result,
    {
        self.regs.core_result()
    }

    /// Script one core finishing: it falls not-busy, its valid bit tells
    /// whether a result is there, and `result` is what a harvest would load.
    pub fn complete_core(&mut self, core: u64, valid: bool, result: u64)
        requires
            old(self).wf(),
            core < old(self)@.regs.cores_count,
        ensures
            final(self).wf(),
            final(self)@ == (MockView {
                regs: RegBlock {
                    cores_busy_flags: old(self)@.regs.cores_busy_flags & !(1u128 << (core as u128)),
                    cores_valid_flags: if valid {
                        old(self)@.regs.cores_valid_flags | (1u128 << (core as u128))
                    } else {
                        old(self)@.regs.cores_valid_flags & !(1u128 << (core as u128))
                    },
                    ..old(self)@.regs
                },
                results: old(self)@.results.update(core as int, result),
                ..old(self)@
            }),
    {
        let busy = self.regs.cores_busy_flags() & !(1u128 << core);
        self.regs.hw_set_cores_busy_flags(busy);
        let valid_flags = if valid {
            self.regs.cores_valid_flags() | (1u128 << core)
        } else {
            self.regs.cores_valid_flags() & !(1u128 << core)
        };
        self.regs.hw_set_cores_valid_flags(valid_flags);
        self.results.set(core as usize, result);
    }

    /// Script the cluster answering CoreBusy to the next `n` Start commands.
    pub fn reject_next_starts(&mut self, n: u64)
        ensures
            final(self)@ == (MockView { reject_starts: n, ..old(self)@ }),
    {
        self.reject_starts = n;
    }
}

} // verus!
