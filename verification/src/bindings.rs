//! The records and numbers that the process and the kernel exchange.
//!
//! Every record is held as plain integers. A field that the kernel interface
//! overlays with others of the same width appears once, under the name of its
//! first use; reserved words and padding, which are always zero, are left
//! out.

use vstd::prelude::*;

verus! {

/// Bytes that one submission entry occupies in the submission-entry array.
pub const SQE_BYTES: u64 = 64;

/// Bytes that one completion entry occupies in the completion ring.
pub const CQE_BYTES: u64 = 16;

/// Bytes of one ring counter, and of one slot of the indirection array.
pub const INDEX_BYTES: u64 = 4;

/// Capabilities that the setup call reports.
#[allow(non_camel_case_types)]
#[derive(Clone, Copy, Debug, PartialEq, Eq)]
pub enum Feature {
    /// Both rings can be reached through a single mapping.
    IORING_FEAT_SINGLE_MMAP,
}

impl Feature {
    /// The bit that stands for this capability in a feature set.
    pub open spec fn spec_bits(self) -> u32 {
        match self {
            Feature::IORING_FEAT_SINGLE_MMAP => 1,
        }
    }

    #[verifier::when_used_as_spec(spec_bits)]
    pub fn bits(self) -> (bits: u32)
        ensures
            bits == self.spec_bits(),
    {
        match self {
            Feature::IORING_FEAT_SINGLE_MMAP => 1,
        }
    }
}

/// Behaviours that can be asked of the enter call.
#[allow(non_camel_case_types)]
#[derive(Clone, Copy, Debug, PartialEq, Eq)]
pub enum Enter {
    /// Also wait for completions before returning.
    IORING_ENTER_GETEVENTS,
}

impl Enter {
    /// The bit that asks for this behaviour.
    pub open spec fn spec_bits(self) -> u32 {
        match self {
            Enter::IORING_ENTER_GETEVENTS => 1,
        }
    }

    #[verifier::when_used_as_spec(spec_bits)]
    pub fn bits(self) -> (bits: u32)
        ensures
            bits == self.spec_bits(),
    {
        match self {
            Enter::IORING_ENTER_GETEVENTS => 1,
        }
    }
}

/// The three regions that can be mapped from a ring's kernel handle.
#[allow(non_camel_case_types)]
#[derive(Clone, Copy, Debug, PartialEq, Eq)]
pub enum Offset {
    /// The submission ring: its counters and its indirection array.
    IORING_OFF_SQ_RING,
    /// The completion ring: its counters and its completion entries.
    IORING_OFF_CQ_RING,
    /// The array of submission entries.
    IORING_OFF_SQES,
}

impl Offset {
    /// The file offset that selects this region in a mapping request.
    pub open spec fn spec_value(self) -> i64 {
        match self {
            Offset::IORING_OFF_SQ_RING => 0x0,
            Offset::IORING_OFF_CQ_RING => 0x800_0000,
            Offset::IORING_OFF_SQES => 0x1000_0000,
        }
    }

    #[verifier::when_used_as_spec(spec_value)]
    pub fn value(self) -> (value: i64)
        ensures
            value == self.spec_value(),
    {
        match self {
            Offset::IORING_OFF_SQ_RING => 0x0,
            Offset::IORING_OFF_CQ_RING => 0x800_0000,
            Offset::IORING_OFF_SQES => 0x1000_0000,
        }
    }
}

/// The kinds of operation that a submission entry can describe.
#[allow(non_camel_case_types)]
#[derive(Clone, Copy, Debug, PartialEq, Eq)]
pub enum Opcode {
    /// Do nothing, and complete.
    IORING_OP_NOP,
    /// Read from a file into a buffer.
    IORING_OP_READ,
}

impl Opcode {
    /// The number by which the kernel knows this kind of operation.
    pub open spec fn spec_code(self) -> u8 {
        match self {
            Opcode::IORING_OP_NOP => 0,
            Opcode::IORING_OP_READ => 22,
        }
    }

    #[verifier::when_used_as_spec(spec_code)]
    pub fn code(self) -> (code: u8)
        ensures
            code == self.spec_code(),
    {
        match self {
            Opcode::IORING_OP_NOP => 0,
            Opcode::IORING_OP_READ => 22,
        }
    }
}

/// The outcome of one operation, as the kernel reports it.
#[allow(non_camel_case_types)]
#[derive(Clone, Copy, Debug, PartialEq, Eq)]
pub struct io_uring_cqe {
    /// The correlation tag of the submission entry that this answers.
    pub user_data: u64,
    /// What the operation returned: negative for a failure, else a count
    /// such as the bytes transferred.
    pub res: i32,
    pub flags: u32,
}

/// The description of one operation, as the kernel reads it.
#[allow(non_camel_case_types)]
#[derive(Clone, Copy, Debug, PartialEq, Eq)]
pub struct io_uring_sqe {
    pub opcode: u8,
    pub flags: u8,
    pub ioprio: u16,
    pub fd: i32,
    /// Byte offset in the file; overlaid with a second address.
    pub off: u64,
    /// Address of the buffer; overlaid with a splice offset.
    pub addr: u64,
    pub len: u32,
    /// Flags of the operation kind, such as those of a read or write.
    pub rw_flags: u32,
    /// The correlation tag, handed back unchanged in the completion.
    pub user_data: u64,
    /// Index of a registered buffer; overlaid with a buffer group.
    pub buf_index: u16,
    pub personality: u16,
    /// Second descriptor of a splice; overlaid with a file index.
    pub splice_fd_in: i32,
}

impl io_uring_sqe {
    /// The entry whose every field is zero.
    pub open spec fn zeroed() -> io_uring_sqe {
        io_uring_sqe {
            opcode: 0,
            flags: 0,
            ioprio: 0,
            fd: 0,
            off: 0,
            addr: 0,
            len: 0,
            rw_flags: 0,
            user_data: 0,
            buf_index: 0,
            personality: 0,
            splice_fd_in: 0,
        }
    }
}

impl Default for io_uring_sqe {
    fn default() -> (sqe: io_uring_sqe)
        ensures
            sqe == io_uring_sqe::zeroed(),
    {
        io_uring_sqe {
            opcode: 0,
            flags: 0,
            ioprio: 0,
            fd: 0,
            off: 0,
            addr: 0,
            len: 0,
            rw_flags: 0,
            user_data: 0,
            buf_index: 0,
            personality: 0,
            splice_fd_in: 0,
        }
    }
}

/// Where the parts of the submission ring lie in its mapped region, in bytes
/// from the start of the region.
#[allow(non_camel_case_types)]
#[derive(Clone, Copy, Debug, PartialEq, Eq)]
pub struct io_sqring_offsets {
    pub head: u32,
    pub tail: u32,
    pub ring_mask: u32,
    pub ring_entries: u32,
    pub flags: u32,
    pub dropped: u32,
    pub array: u32,
}

impl io_sqring_offsets {
    /// Every counter, and an indirection array of `entries` slots, lies
    /// inside a region of `region_len` bytes.
    pub open spec fn spec_fits(&self, entries: u32, region_len: u64) -> bool {
        &&& self.head + INDEX_BYTES <= region_len
        &&& self.tail + INDEX_BYTES <= region_len
        &&& self.ring_mask + INDEX_BYTES <= region_len
        &&& self.ring_entries + INDEX_BYTES <= region_len
        &&& self.flags + INDEX_BYTES <= region_len
        &&& self.dropped + INDEX_BYTES <= region_len
        &&& self.array + INDEX_BYTES * entries <= region_len
    }

    #[verifier::when_used_as_spec(spec_fits)]
    pub fn fits(&self, entries: u32, region_len: u64) -> (fits: bool)
        ensures
            fits == self.spec_fits(entries, region_len),
    {
        self.head as u64 + INDEX_BYTES <= region_len
            && self.tail as u64 + INDEX_BYTES <= region_len
            && self.ring_mask as u64 + INDEX_BYTES <= region_len
            && self.ring_entries as u64 + INDEX_BYTES <= region_len
            && self.flags as u64 + INDEX_BYTES <= region_len
            && self.dropped as u64 + INDEX_BYTES <= region_len
            && self.array as u64 + INDEX_BYTES * (entries as u64) <= region_len
    }
}

/// Where the parts of the completion ring lie in its mapped region, in bytes
/// from the start of the region.
#[allow(non_camel_case_types)]
#[derive(Clone, Copy, Debug, PartialEq, Eq)]
pub struct io_cqring_offsets {
    pub head: u32,
    pub tail: u32,
    pub ring_mask: u32,
    pub ring_entries: u32,
    pub overflow: u32,
    pub cqes: u32,
    pub flags: u32,
}

impl io_cqring_offsets {
    /// Every counter, and `entries` completion entries, lies inside a region
    /// of `region_len` bytes.
    pub open spec fn spec_fits(&self, entries: u32, region_len: u64) -> bool {
        &&& self.head + INDEX_BYTES <= region_len
        &&& self.tail + INDEX_BYTES <= region_len
        &&& self.ring_mask + INDEX_BYTES <= region_len
        &&& self.ring_entries + INDEX_BYTES <= region_len
        &&& self.overflow + INDEX_BYTES <= region_len
        &&& self.flags + INDEX_BYTES <= region_len
        &&& self.cqes + CQE_BYTES * entries <= region_len
    }

    #[verifier::when_used_as_spec(spec_fits)]
    pub fn fits(&self, entries: u32, region_len: u64) -> (fits: bool)
        ensures
            fits == self.spec_fits(entries, region_len),
    {
        self.head as u64 + INDEX_BYTES <= region_len
            && self.tail as u64 + INDEX_BYTES <= region_len
            && self.ring_mask as u64 + INDEX_BYTES <= region_len
            && self.ring_entries as u64 + INDEX_BYTES <= region_len
            && self.overflow as u64 + INDEX_BYTES <= region_len
            && self.flags as u64 + INDEX_BYTES <= region_len
            && self.cqes as u64 + CQE_BYTES * (entries as u64) <= region_len
    }
}

/// What the setup call is told and what it answers: the size of each ring,
/// the capabilities of the kernel, and where the parts of each ring lie.
#[allow(non_camel_case_types)]
#[derive(Clone, Copy, Debug, PartialEq, Eq)]
pub struct io_uring_params {
    pub sq_entries: u32,
    pub cq_entries: u32,
    pub flags: u32,
    pub sq_thread_cpu: u32,
    pub sq_thread_idle: u32,
    pub features: u32,
    pub wq_fd: u32,
    pub sq_off: io_sqring_offsets,
    pub cq_off: io_cqring_offsets,
}

impl io_uring_params {
    /// The parameters whose every field is zero.
    pub open spec fn zeroed() -> io_uring_params {
        io_uring_params {
            sq_entries: 0,
            cq_entries: 0,
            flags: 0,
            sq_thread_cpu: 0,
            sq_thread_idle: 0,
            features: 0,
            wq_fd: 0,
            sq_off: io_sqring_offsets {
                head: 0,
                tail: 0,
                ring_mask: 0,
                ring_entries: 0,
                flags: 0,
                dropped: 0,
                array: 0,
            },
            cq_off: io_cqring_offsets {
                head: 0,
                tail: 0,
                ring_mask: 0,
                ring_entries: 0,
                overflow: 0,
                cqes: 0,
                flags: 0,
            },
        }
    }

    /// Whether the kernel reported the capability `feature`.
    pub open spec fn spec_has(&self, feature: Feature) -> bool {
        self.features & feature.spec_bits() != 0
    }

    #[verifier::when_used_as_spec(spec_has)]
    pub fn has(&self, feature: Feature) -> (has: bool)
        ensures
            has == self.spec_has(feature),
    {
        self.features & feature.bits() != 0
    }
}

impl Default for io_uring_params {
    fn default() -> (params: io_uring_params)
        ensures
            params == io_uring_params::zeroed(),
    {
        io_uring_params {
            sq_entries: 0,
            cq_entries: 0,
            flags: 0,
            sq_thread_cpu: 0,
            sq_thread_idle: 0,
            features: 0,
            wq_fd: 0,
            sq_off: io_sqring_offsets {
                head: 0,
                tail: 0,
                ring_mask: 0,
                ring_entries: 0,
                flags: 0,
                dropped: 0,
                array: 0,
            },
            cq_off: io_cqring_offsets {
                head: 0,
                tail: 0,
                ring_mask: 0,
                ring_entries: 0,
                overflow: 0,
                cqes: 0,
                flags: 0,
            },
        }
    }
}

} // verus!
