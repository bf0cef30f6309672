//! Strings of bounded length that are built byte by byte.
use vstd::prelude::*;
use vstd::utf8::encode_scalar;
use vstd::string::StringSliceAdditionalSpecFns;

verus! {

/// The largest number of bytes that a string holds.
pub const MAX_STRING_LEN: usize = 2032;

/// A finished string. Its view is its bytes.
pub struct VarStr {
    memory: Vec<u8>,
}

impl VarStr {
    pub closed spec fn view(&self) -> Seq<u8> {
        self.memory@
    }

    pub fn len(&self) -> (r: usize)
        ensures
            r == self@.len(),
    {
        self.memory.len()
    }

    /// The bytes of the string.
    pub fn as_bytes(&self) -> (r: &Vec<u8>)
        ensures
            r@ == self@,
    {
        &self.memory
    }
}

/// What a builder holds: the bytes so far, and whether bytes were left out for want of
/// room.
pub struct Built {
    pub bytes: Seq<u8>,
    pub truncated: bool,
}

/// A string under construction, of at most `MAX_STRING_LEN` bytes.
pub struct StringBuilder {
    memory: Vec<u8>,
    was_truncated: bool,
}

impl StringBuilder {
    pub closed spec fn view(&self) -> Built {
        Built { bytes: self.memory@, truncated: self.was_truncated }
    }

    pub open spec fn wf(&self) -> bool {
        self@.bytes.len() <= MAX_STRING_LEN
    }

    pub fn new() -> (r: StringBuilder)
        ensures
            r.wf(),
            r@ == (Built { bytes: Seq::empty(), truncated: false }),
    {
        StringBuilder { memory: Vec::new(), was_truncated: false }
    }

    pub fn is_truncated(&self) -> (r: bool)
        ensures
            r == self@.truncated,
    {
        self.was_truncated
    }

    /// Adds one byte, if there is room; else the string counts as truncated.
    pub fn add_u8(&mut self, b: u8)
        requires
            old(self).wf(),
        ensures
            final(self).wf(),
            old(self)@.bytes.len() < MAX_STRING_LEN ==> final(self)@ == (Built {
                bytes: old(self)@.bytes.push(b),
                ..old(self)@
            }),
            old(self)@.bytes.len() >= MAX_STRING_LEN ==> final(self)@ == (Built {
                truncated: true,
                ..old(self)@
            }),
    {
        if self.memory.len() < MAX_STRING_LEN {
            self.memory.push(b);
        } else {
            self.was_truncated = true;
        }
    }

    /// Adds the bytes of `b` if there is room for all of them. Else the first
    /// `MAX_STRING_LEN - b.len()` of them are added and the string counts as truncated;
    /// then `b` must be no shorter than the string so far and no longer than
    /// `MAX_STRING_LEN`.
    pub fn add_bytes(&mut self, b: &[u8])
        requires
            old(self).wf(),
            old(self)@.bytes.len() + b@.len() > MAX_STRING_LEN ==> old(self)@.bytes.len()
                <= b@.len() <= MAX_STRING_LEN,
        ensures
            final(self).wf(),
            old(self)@.bytes.len() + b@.len() <= MAX_STRING_LEN ==> final(self)@ == (Built {
                bytes: old(self)@.bytes + b@,
                ..old(self)@
            }),
            old(self)@.bytes.len() + b@.len() > MAX_STRING_LEN ==> final(self)@ == (Built {
                bytes: old(self)@.bytes + b@.take(MAX_STRING_LEN - b@.len()),
                truncated: true,
            }),
    {
        let ghost start = self.memory@;
        let count = if self.memory.len() + b.len() <= MAX_STRING_LEN {
            b.len()
        } else {
            self.was_truncated = true;
            MAX_STRING_LEN - b.len()
        };
        let mut i: usize = 0;
        while i < count
            invariant
                i <= count <= b@.len(),
                start.len() + count <= MAX_STRING_LEN,
                self.memory@ == start + b@.take(i as int),
                self.was_truncated == (old(self).was_truncated || old(self)@.bytes.len() + b@.len()
                    > MAX_STRING_LEN),
            decreases count - i,
        {
            self.memory.push(b[i]);
            assert(self.memory@ =~= start + b@.take(i + 1));
            i = i + 1;
        }
        assert(b@.take(b@.len() as int) =~= b@);
    }

    /// Adds the bytes of the string `b`, as `add_bytes` does.
    pub fn add_str(&mut self, b: &str)
        requires
            old(self).wf(),
            old(self)@.bytes.len() + b.spec_bytes().len() > MAX_STRING_LEN
                ==> old(self)@.bytes.len() <= b.spec_bytes().len() <= MAX_STRING_LEN,
        ensures
            final(self).wf(),
            old(self)@.bytes.len() + b.spec_bytes().len() <= MAX_STRING_LEN ==> final(self)@
                == (Built { bytes: old(self)@.bytes + b.spec_bytes(), ..old(self)@ }),
            old(self)@.bytes.len() + b.spec_bytes().len() > MAX_STRING_LEN ==> final(self)@
                == (Built {
                bytes: old(self)@.bytes + b.spec_bytes().take(
                    MAX_STRING_LEN - b.spec_bytes().len(),
                ),
                truncated: true,
            }),
    {
        self.add_bytes(b.as_bytes())
    }

    /// Adds the character `b` in its UTF-8 encoding, as `add_bytes` does.
    pub fn add_char(&mut self, b: char)
        requires
            old(self).wf(),
            old(self)@.bytes.len() + encode_scalar(b as u32).len() > MAX_STRING_LEN
                ==> old(self)@.bytes.len() <= encode_scalar(b as u32).len(),
        ensures
            final(self).wf(),
            old(self)@.bytes.len() + encode_scalar(b as u32).len() <= MAX_STRING_LEN
                ==> final(self)@
                == (Built { bytes: old(self)@.bytes + encode_scalar(b as u32), ..old(self)@ }),
            old(self)@.bytes.len() + encode_scalar(b as u32).len() > MAX_STRING_LEN
                ==> final(self)@ == (Built {
                bytes: old(self)@.bytes + encode_scalar(b as u32).take(
                    MAX_STRING_LEN - encode_scalar(b as u32).len(),
                ),
                truncated: true,
            }),
    {
        let c = b as u32;
        let mut tbuf: Vec<u8> = Vec::new();
        assert((c & 0x7F) <= 0x7F && ((c >> 6) & 0x1F) <= 0x1F && (c & 0x3F) <= 0x3F && ((c >> 12)
            & 0x0F) <= 0x0F && ((c >> 6) & 0x3F) <= 0x3F && ((c >> 18) & 0x7) <= 0x7 && ((c >> 12)
            & 0x3F) <= 0x3F) by (bit_vector);
        if c <= 0x7F {
            tbuf.push((c & 0x7F) as u8);
        } else if c <= 0x7FF {
            tbuf.push(0xC0 | (((c >> 6) & 0x1F) as u8));
            tbuf.push(0x80 | ((c & 0x3F) as u8));
        } else if c <= 0xFFFF {
            tbuf.push(0xE0 | (((c >> 12) & 0x0F) as u8));
            tbuf.push(0x80 | (((c >> 6) & 0x3F) as u8));
            tbuf.push(0x80 | ((c & 0x3F) as u8));
        } else {
            tbuf.push(0xF0 | (((c >> 18) & 0x7) as u8));
            tbuf.push(0x80 | (((c >> 12) & 0x3F) as u8));
            tbuf.push(0x80 | (((c >> 6) & 0x3F) as u8));
            tbuf.push(0x80 | ((c & 0x3F) as u8));
        }
        assert(tbuf@ =~= encode_scalar(c));
        self.add_bytes(tbuf.as_slice());
    }

    /// The string built so far.
    pub fn to_str(&self) -> (r: Option<VarStr>)
        ensures
            r matches Some(s) && s@ == self@.bytes,
    {
        Some(VarStr { memory: self.memory.clone() })
    }
}

} // verus!
