//! Constants and structures of the kernel's interface.
use vstd::prelude::*;
use vstd::arithmetic::power2::pow2;
use vstd::bits::{lemma_usize_pow2_no_overflow, lemma_usize_shl_is_mul};

verus! {

pub const PAGE_4K_BITS: u8 = 12;

pub const PAGE_4K_SIZE: usize = 0x1000;

pub const PAGE_2M_BITS: u8 = 21;

pub const PAGE_2M_SIZE: usize = 0x20_0000;

/// How many bits of children one retype invocation may produce at most.
pub const FAN_OUT_LIMIT_BITS: u8 = 8;

/// The number of bytes of an object of `bits` size bits.
pub fn bytes_of_bits(bits: u8) -> (r: usize)
    requires
        bits < usize::BITS,
    ensures
        r == pow2(bits as nat),
{
    proof {
        lemma_usize_pow2_no_overflow(bits as nat);
        lemma_usize_shl_is_mul(1usize, bits as usize);
    }
    1usize << (bits as usize)
}

/// The kernel's error codes.
#[derive(Debug, Copy, Clone, PartialEq, Eq, Hash, Structural)]
pub enum KError {
    NoError,
    InvalidArgument,
    InvalidCapability,
    IllegalOperation,
    RangeError,
    AlignmentError,
    FailedLookup,
    TruncatedMessage,
    DeleteFirst,
    RevokeFirst,
    NotEnoughMemory,
    UnknownError,
}

impl KError {
    /// The error that the kernel's code `code` stands for; every code above 10 is
    /// `UnknownError`.
    pub open spec fn of_code(code: u32) -> KError {
        if code == 0 {
            KError::NoError
        } else if code == 1 {
            KError::InvalidArgument
        } else if code == 2 {
            KError::InvalidCapability
        } else if code == 3 {
            KError::IllegalOperation
        } else if code == 4 {
            KError::RangeError
        } else if code == 5 {
            KError::AlignmentError
        } else if code == 6 {
            KError::FailedLookup
        } else if code == 7 {
            KError::TruncatedMessage
        } else if code == 8 {
            KError::DeleteFirst
        } else if code == 9 {
            KError::RevokeFirst
        } else if code == 10 {
            KError::NotEnoughMemory
        } else {
            KError::UnknownError
        }
    }

    /// The kernel's number for this error.
    pub open spec fn spec_code(self) -> u32 {
        match self {
            KError::NoError => 0,
            KError::InvalidArgument => 1,
            KError::InvalidCapability => 2,
            KError::IllegalOperation => 3,
            KError::RangeError => 4,
            KError::AlignmentError => 5,
            KError::FailedLookup => 6,
            KError::TruncatedMessage => 7,
            KError::DeleteFirst => 8,
            KError::RevokeFirst => 9,
            KError::NotEnoughMemory => 10,
            KError::UnknownError => 11,
        }
    }

    pub fn from_code(code: u32) -> (r: KError)
        ensures
            r == KError::of_code(code),
    {
        match code {
            0 => KError::NoError,
            1 => KError::InvalidArgument,
            2 => KError::InvalidCapability,
            3 => KError::IllegalOperation,
            4 => KError::RangeError,
            5 => KError::AlignmentError,
            6 => KError::FailedLookup,
            7 => KError::TruncatedMessage,
            8 => KError::DeleteFirst,
            9 => KError::RevokeFirst,
            10 => KError::NotEnoughMemory,
            _ => KError::UnknownError,
        }
    }

    #[verifier::when_used_as_spec(spec_code)]
    pub fn code(self) -> (r: u32)
        ensures
            r == self.spec_code(),
    {
        match self {
            KError::NoError => 0,
            KError::InvalidArgument => 1,
            KError::InvalidCapability => 2,
            KError::IllegalOperation => 3,
            KError::RangeError => 4,
            KError::AlignmentError => 5,
            KError::FailedLookup => 6,
            KError::TruncatedMessage => 7,
            KError::DeleteFirst => 8,
            KError::RevokeFirst => 9,
            KError::NotEnoughMemory => 10,
            KError::UnknownError => 11,
        }
    }

    pub fn to_result(&self) -> (r: Result<(), KError>)
        ensures
            *self == KError::NoError ==> r == Ok::<(), KError>(()),
            *self != KError::NoError ==> r == Err::<(), KError>(*self),
    {
        if self.is_error() {
            Err(*self)
        } else {
            Ok(())
        }
    }

    pub fn is_error(&self) -> (r: bool)
        ensures
            r == (*self != KError::NoError),
    {
        *self != KError::NoError
    }

    pub fn is_okay(&self) -> (r: bool)
        ensures
            r == (*self == KError::NoError),
    {
        *self == KError::NoError
    }
}

/// Every error has a code, and the code leads back to the error.
pub proof fn lemma_code_round_trip(e: KError)
    ensures
        KError::of_code(e.spec_code()) == e,
        e.spec_code() <= 11,
{
}

/// The kinds of object that an untyped can be retyped into.
#[derive(Debug, Copy, Clone, PartialEq, Eq, Structural)]
pub enum ObjectType {
    UntypedObject,
    TCBObject,
    EndpointObject,
    NotificationObject,
    CapTableObject,
    X86PDPTObject,
    X64PML4Object,
    X864K,
    X86LargePageObject,
    X86PageTableObject,
    X86PageDirectoryObject,
}

impl ObjectType {
    pub open spec fn spec_code(self) -> usize {
        match self {
            ObjectType::UntypedObject => 0,
            ObjectType::TCBObject => 1,
            ObjectType::EndpointObject => 2,
            ObjectType::NotificationObject => 3,
            ObjectType::CapTableObject => 4,
            ObjectType::X86PDPTObject => 5,
            ObjectType::X64PML4Object => 6,
            ObjectType::X864K => 7,
            ObjectType::X86LargePageObject => 8,
            ObjectType::X86PageTableObject => 9,
            ObjectType::X86PageDirectoryObject => 10,
        }
    }

    /// The kernel's number for this kind of object.
    #[verifier::when_used_as_spec(spec_code)]
    pub fn code(self) -> (r: usize)
        ensures
            r == self.spec_code(),
    {
        match self {
            ObjectType::UntypedObject => 0,
            ObjectType::TCBObject => 1,
            ObjectType::EndpointObject => 2,
            ObjectType::NotificationObject => 3,
            ObjectType::CapTableObject => 4,
            ObjectType::X86PDPTObject => 5,
            ObjectType::X64PML4Object => 6,
            ObjectType::X864K => 7,
            ObjectType::X86LargePageObject => 8,
            ObjectType::X86PageTableObject => 9,
            ObjectType::X86PageDirectoryObject => 10,
        }
    }
}

/// A half-open range of capability slots as the kernel reports it.
#[derive(Debug, Copy, Clone)]
pub struct SlotRegion {
    pub start: usize,
    pub end: usize,
}

/// One untyped of the boot information: where it lies, how large it is, whether it is
/// device memory.
#[derive(Debug, Copy, Clone)]
pub struct UntypedDesc {
    pub paddr: usize,
    pub padding1: u8,
    pub padding2: u8,
    pub size_bits: u8,
    pub is_device: u8,
}

/// The thread's IPC buffer.
pub struct IPCBuffer {
    pub tag: usize,
    pub msg: [usize; 120],
    pub user_data: usize,
    pub caps_or_badges: [usize; 3],
    pub receive_cnode: usize,
    pub receive_index: usize,
    pub receive_depth: usize,
}

/// What the kernel hands to the root task at startup. `ipc_buffer` is the address of the
/// IPC buffer.
pub struct BootInfo {
    pub extra_len: usize,
    pub node_id: usize,
    pub num_nodes: usize,
    pub num_iopt_levels: usize,
    pub ipc_buffer: usize,
    pub empty: SlotRegion,
    pub shared_frames: SlotRegion,
    pub user_image_frames: SlotRegion,
    pub user_image_paging: SlotRegion,
    pub io_space_caps: SlotRegion,
    pub extra_bi_pages: SlotRegion,
    pub init_thread_cnode_size_bits: u8,
    pub init_thread_domain: usize,
    pub arch_info: usize,
    pub untyped: SlotRegion,
    pub untyped_list: [UntypedDesc; 230],
}

pub const SYS_CALL: isize = -1;

pub const SYS_REPLY_RECV: isize = -2;

pub const SYS_SEND: isize = -3;

pub const SYS_NBSEND: isize = -4;

pub const SYS_RECV: isize = -5;

pub const SYS_REPLY: isize = -6;

pub const SYS_YIELD: isize = -7;

pub const SYS_NBRECV: isize = -8;

pub const SYS_DEBUG_PUTCHAR: isize = -9;

pub const SYS_DEBUG_HALT: isize = -10;

pub const SYS_DEBUG_CAPIDENTIFY: isize = -11;

pub const SYS_DEBUG_CAPSNAPSHOT: isize = -12;

pub const SYS_DEBUG_NAMETHREAD: isize = -13;

pub const LOOKUP_FAILURE_NO_FAILURE: usize = 0;

pub const LOOKUP_FAILURE_INVALID_ROOT: usize = 1;

pub const LOOKUP_FAILURE_MISSING_CAPABILITY: usize = 2;

pub const LOOKUP_FAILURE_DEPTH_MISMATCH: usize = 3;

pub const LOOKUP_FAILURE_GUARD_MISMATCH: usize = 4;

pub const CAP_NULL: u32 = 0;

pub const CAP_INIT_TCB: u32 = 1;

pub const CAP_INIT_CNODE: u32 = 2;

pub const CAP_INIT_VSPACE: u32 = 3;

pub const CAP_INIT_IRQCONTROL: u32 = 4;

pub const CAP_INIT_ASIDCONTROL: u32 = 5;

pub const CAP_INIT_ASIDPOOL: u32 = 6;

pub const CAP_INIT_IOPORT: u32 = 7;

pub const CAP_INIT_IOSPACE: u32 = 8;

pub const CAP_INIT_BOOTINFO_FRAME: u32 = 9;

pub const CAP_INIT_IPCBUFFER: u32 = 10;

pub const CAP_INIT_DOMAIN: u32 = 11;

pub const CAP_INIT_COUNT: u32 = 12;

pub type MessageTag = u32;

pub const TAG_INVALID_INVOCATION: MessageTag = 0;

pub const TAG_UNTYPED_RETYPE: MessageTag = 1;

pub const TAG_CNODE_REVOKE: MessageTag = 14;

pub const TAG_CNODE_DELETE: MessageTag = 15;

pub const TAG_IRQ_ISSUE_IRQ_HANDLER: MessageTag = 23;

pub const TAG_IRQ_ACK_IRQ: MessageTag = 24;

pub const TAG_IRQ_SET_IRQ_HANDLER: MessageTag = 25;

pub const TAG_IRQ_CLEAR_IRQ_HANDLER: MessageTag = 26;

pub const TAG_X86_PAGETABLE_MAP: MessageTag = 33;

pub const TAG_X86_PAGETABLE_UNMAP: MessageTag = 34;

pub const TAG_X86_PAGE_MAP: MessageTag = 37;

pub const TAG_X86_PAGE_REMAP: MessageTag = 38;

pub const TAG_X86_PAGE_UNMAP: MessageTag = 39;

pub const TAG_X86_IOPORT_IN8: MessageTag = 44;

pub const TAG_X86_IOPORT_OUT8: MessageTag = 47;

pub type MessageInfo = u32;

/// The message-info word with `label` in its upper twenty bits, then three bits of
/// `caps_unwrapped`, two of `extra_caps` and seven of `length`.
pub open spec fn spec_messageinfo_new(
    label: u32,
    caps_unwrapped: u8,
    extra_caps: u8,
    length: u8,
) -> int {
    label * 0x1000 + caps_unwrapped * 0x200 + extra_caps * 0x80 + length
}

pub fn messageinfo_new(label: u32, caps_unwrapped: u8, extra_caps: u8, length: u8) -> (r:
    MessageInfo)
    requires
        label <= 0xfffff,
        caps_unwrapped <= 0x7,
        extra_caps <= 0x3,
        length <= 0x7f,
    ensures
        r == spec_messageinfo_new(label, caps_unwrapped, extra_caps, length),
{
    let cu: u32 = caps_unwrapped as u32;
    let ec: u32 = extra_caps as u32;
    let len: u32 = length as u32;
    assert((((label & 0xfffffu32) << 12) | ((cu & 0x7u32) << 9) | ((ec & 0x3u32) << 7) | (len
        & 0x7fu32)) == label * 0x1000 + cu * 0x200 + ec * 0x80 + len) by (bit_vector)
        requires
            label <= 0xfffffu32,
            cu <= 7u32,
            ec <= 3u32,
            len <= 0x7fu32,
    ;
    ((label & 0xfffffu32) << 12) | ((cu & 0x7u32) << 9) | ((ec & 0x3u32) << 7) | (len & 0x7fu32)
}

pub fn messageinfo_get_label(info: MessageInfo) -> (r: u32)
    ensures
        r == info / 0x1000,
{
    assert((info & 0xfffff000u32) >> 12 == info / 0x1000) by (bit_vector);
    (info & 0xfffff000u32) >> 12
}

/// The label that went into a message-info word comes out of it again.
pub proof fn lemma_label_round_trip(label: u32, caps_unwrapped: u8, extra_caps: u8, length: u8)
    requires
        label <= 0xfffff,
        caps_unwrapped <= 0x7,
        extra_caps <= 0x3,
        length <= 0x7f,
    ensures
        spec_messageinfo_new(label, caps_unwrapped, extra_caps, length) / 0x1000 == label,
        0 <= spec_messageinfo_new(label, caps_unwrapped, extra_caps, length) <= u32::MAX,
{
}

} // verus!
