//! The text screen: 25 lines of 80 cells, two bytes each, a character and its colours.
//! The driver keeps the screen's content; whoever owns the mapped device page copies it
//! there.
use vstd::prelude::*;
use crate::mantle::kio::extends;
use crate::kobject::steps::group_record;
use vstd::string::StrSliceExecFns;
use crate::crust::capalloc::SlotAllocator;
use crate::crust::device::{get_mapped_device_page, return_mapped_device_page, which, Devices};
use crate::crust::device::{page_can_be_mapped, steps_before_map, table_can_be_made};
use crate::kobject::page4k::agreed_but_table;
use crate::crust::freelist::holds_none_of;
use crate::mantle::calls::agreed;
use crate::crust::vspace::RegionAllocator;
use crate::kobject::{MappedPage4K, PageTables};
use crate::mantle::kernel;
use crate::mantle::kernel::KError;
use crate::mantle::kio::{Syscalls, Machine};
use crate::memory::untyped::UntypedAllocator;

verus! {

broadcast use group_record;

/// The physical address of the text screen.
pub const VGA_BUFFER: usize = 0xb8000;

pub const VGA_WIDTH: u8 = 80;

pub const VGA_HEIGHT: u8 = 25;

/// The number of bytes of the screen.
pub const VGA_BYTES: usize = 4000;

#[derive(Debug, Copy, Clone, PartialEq, Eq, Structural)]
pub enum Color {
    Black,
    Blue,
    Green,
    Cyan,
    Red,
    Magenta,
    Brown,
    LightGray,
    DarkGrey,
    LightBlue,
    LightGreen,
    LightCyan,
    LightRed,
    Pink,
    Yellow,
    White,
}

impl Color {
    pub open spec fn spec_code(self) -> u8 {
        match self {
            Color::Black => 0,
            Color::Blue => 1,
            Color::Green => 2,
            Color::Cyan => 3,
            Color::Red => 4,
            Color::Magenta => 5,
            Color::Brown => 6,
            Color::LightGray => 7,
            Color::DarkGrey => 8,
            Color::LightBlue => 9,
            Color::LightGreen => 10,
            Color::LightCyan => 11,
            Color::LightRed => 12,
            Color::Pink => 13,
            Color::Yellow => 14,
            Color::White => 15,
        }
    }

    /// The number of the colour.
    #[verifier::when_used_as_spec(spec_code)]
    pub fn code(self) -> (r: u8)
        ensures
            r == self.spec_code(),
    {
        match self {
            Color::Black => 0,
            Color::Blue => 1,
            Color::Green => 2,
            Color::Cyan => 3,
            Color::Red => 4,
            Color::Magenta => 5,
            Color::Brown => 6,
            Color::LightGray => 7,
            Color::DarkGrey => 8,
            Color::LightBlue => 9,
            Color::LightGreen => 10,
            Color::LightCyan => 11,
            Color::LightRed => 12,
            Color::Pink => 13,
            Color::Yellow => 14,
            Color::White => 15,
        }
    }
}

/// The index of the first byte of the cell in column `x` of line `y`.
pub open spec fn cell(x: int, y: int) -> int {
    (x + y * 80) * 2
}

/// The colour byte of a cell: the foreground in the low four bits, three bits of the
/// background above them, and the top bit for blinking.
pub open spec fn attribute(fg: Color, bg: Color, blink: bool) -> u8 {
    (fg.spec_code() + (bg.spec_code() % 8) * 16 + if blink {
        128int
    } else {
        0int
    }) as u8
}

/// The screen with the cell at column `x` of line `y` set to the character `ch` and the
/// colour byte `attr`.
pub open spec fn with_cell(frame: Seq<u8>, x: int, y: int, ch: u8, attr: u8) -> Seq<u8> {
    frame.update(cell(x, y), ch).update(cell(x, y) + 1, attr)
}

/// The screen moved up by one line, with an empty last line.
pub open spec fn scrolled(frame: Seq<u8>) -> Seq<u8> {
    Seq::new(
        VGA_BYTES as nat,
        |i: int|
            if i < VGA_BYTES - 160 {
                frame[i + 160]
            } else {
                0u8
            },
    )
}

/// The empty screen.
pub open spec fn blank() -> Seq<u8> {
    Seq::new(VGA_BYTES as nat, |i: int| 0u8)
}

/// The mapped page of the screen and the screen's content.
pub struct VGA {
    addr: usize,
    mapping: Option<MappedPage4K>,
    frame: Vec<u8>,
}

impl VGA {
    /// The content of the screen.
    pub closed spec fn view(&self) -> Seq<u8> {
        self.frame@
    }

    /// The physical address of the screen's page.
    pub closed spec fn addr(&self) -> usize {
        self.addr
    }

    /// The mapped page.
    pub closed spec fn page(&self) -> MappedPage4K {
        self.mapping.unwrap()
    }

    pub closed spec fn wf(&self) -> bool {
        &&& self.frame@.len() == VGA_BYTES
        &&& self.mapping is Some
        &&& self.mapping.unwrap().wf()
    }

    pub proof fn lemma_wf(&self)
        requires
            self.wf(),
        ensures
            self@.len() == VGA_BYTES,
            self.page().wf(),
    {
    }

    /// The screen at its usual address.
    pub fn vga_default_port<S: Syscalls>(
        devices: &mut Devices,
        slots: &mut SlotAllocator,
        vspace: &mut RegionAllocator,
        untyped: &mut UntypedAllocator,
        tables: &mut PageTables,
        k: &mut Machine<S>,
    ) -> (r: Result<VGA, KError>)
        requires
            old(devices).wf(),
            old(slots).wf(),
            old(vspace).wf(),
            old(untyped).wf(),
        ensures
            final(devices).wf(),
            final(slots).wf(),
            final(vspace).wf(),
            final(untyped).wf(),
            final(slots).free().subset_of(old(slots).free()),
            which(old(devices)@, VGA_BUFFER) >= old(devices)@.len() ==> r is Err && r->Err_0
                == KError::FailedLookup,
            r matches Ok(vga) ==> vga.wf() && vga.addr() == VGA_BUFFER && vga@ == blank()
                && holds_none_of(final(vspace)@, vga.page()@.region)
                    && !final(slots).free().contains(vga.page()@.page.slot as int)
                    && vga.page()@.page.parent.size_bits
                == kernel::PAGE_4K_BITS,
            r matches Err(err) ==> err != KError::NoError && final(vspace).free()
                == old(vspace).free(),
            which(old(devices)@, VGA_BUFFER) >= old(devices)@.len() ==> final(k)@ == old(k)@,
            extends(old(k)@, final(k)@),
            page_can_be_mapped(old(devices)@, old(slots)@, old(vspace)@, VGA_BUFFER) && agreed(
                old(k)@,
                final(k)@,
            ) ==> r is Ok,
            page_can_be_mapped(old(devices)@, old(slots)@, old(vspace)@, VGA_BUFFER)
                && table_can_be_made(
                old(devices)@,
                old(slots)@,
                old(untyped)@,
                VGA_BUFFER,
            ) && agreed_but_table(old(k)@, final(k)@, steps_before_map(old(devices)@, VGA_BUFFER)) ==> r is Ok
                && final(tables)@.len() == old(tables)@.len() + 1,
    {
        VGA::vga_port(VGA_BUFFER, devices, slots, vspace, untyped, tables, k)
    }

    /// The screen whose page lies at the physical address `addr`: the page is mapped.
    pub fn vga_port<S: Syscalls>(
        addr: usize,
        devices: &mut Devices,
        slots: &mut SlotAllocator,
        vspace: &mut RegionAllocator,
        untyped: &mut UntypedAllocator,
        tables: &mut PageTables,
        k: &mut Machine<S>,
    ) -> (r: Result<VGA, KError>)
        requires
            old(devices).wf(),
            old(slots).wf(),
            old(vspace).wf(),
            old(untyped).wf(),
        ensures
            final(devices).wf(),
            final(slots).wf(),
            final(vspace).wf(),
            final(untyped).wf(),
            final(slots).free().subset_of(old(slots).free()),
            which(old(devices)@, addr) >= old(devices)@.len() ==> r is Err && r->Err_0
                == KError::FailedLookup,
            r matches Ok(vga) ==> vga.wf() && vga.addr() == addr && vga@ == blank()
                && holds_none_of(final(vspace)@, vga.page()@.region)
                    && !final(slots).free().contains(vga.page()@.page.slot as int)
                    && vga.page()@.page.parent.size_bits
                == kernel::PAGE_4K_BITS,
            r matches Err(err) ==> err != KError::NoError && final(vspace).free()
                == old(vspace).free(),
            which(old(devices)@, addr) >= old(devices)@.len() ==> final(k)@ == old(k)@,
            extends(old(k)@, final(k)@),
            page_can_be_mapped(old(devices)@, old(slots)@, old(vspace)@, addr) && agreed(
                old(k)@,
                final(k)@,
            ) ==> r is Ok,
            page_can_be_mapped(old(devices)@, old(slots)@, old(vspace)@, addr) && table_can_be_made(
                old(devices)@,
                old(slots)@,
                old(untyped)@,
                addr,
            ) && agreed_but_table(old(k)@, final(k)@, steps_before_map(old(devices)@, addr))
                ==> r is Ok
                && final(tables)@.len() == old(tables)@.len() + 1,
    {
        let mapping = get_mapped_device_page(devices, slots, vspace, untyped, tables, addr, k)?;
        let mut frame: Vec<u8> = Vec::new();
        let mut i: usize = 0;
        while i < VGA_BYTES
            invariant
                extends(old(k)@, k@),
                i <= VGA_BYTES,
                frame@.len() == i,
                forall|j: int| 0 <= j < i ==> #[trigger] frame@[j] == 0,
            decreases VGA_BYTES - i,
        {
            frame.push(0);
            i = i + 1;
        }
        assert(frame@ =~= blank());
        Ok(VGA { addr, mapping: Some(mapping), frame })
    }

    /// The byte at `index` of the screen's content.
    pub fn byte_at(&self, index: usize) -> (r: u8)
        requires
            self.wf(),
            index < VGA_BYTES,
        ensures
            r == self@[index as int],
    {
        self.frame[index]
    }

    /// Unmaps the screen's page and gives it back.
    pub fn release<S: Syscalls>(
        self,
        devices: &mut Devices,
        slots: &mut SlotAllocator,
        vspace: &mut RegionAllocator,
        k: &mut Machine<S>,
    )
        requires
            self.wf(),
            old(devices).wf(),
            old(slots).wf(),
            old(vspace).wf(),
            holds_none_of(old(vspace)@, self.page()@.region),
            which(old(devices)@, self.addr()) < old(devices)@.len(),
            old(devices)@[which(old(devices)@, self.addr())].leaf(self.addr()).state is Taken,
            old(devices)@[which(old(devices)@, self.addr())].leaf(self.addr()).size_bits
                == kernel::PAGE_4K_BITS,
            self.page()@.page.parent.size_bits == kernel::PAGE_4K_BITS,
            self.page()@.page.slot < usize::MAX,
            !old(slots).free().contains(self.page()@.page.slot as int),
        ensures
            final(devices).wf(),
            final(slots).wf(),
            final(vspace).wf(),
            final(slots).free() == old(slots).free().insert(self.page()@.page.slot as int),
            final(vspace).free() == old(vspace).free().union(self.page()@.region.points()),
            extends(old(k)@, final(k)@),
    {
        let VGA { addr, mapping, frame: _ } = self;
        return_mapped_device_page(devices, slots, vspace, addr, mapping.unwrap(), k);
    }

    /// The screen's page, mapped.
    pub fn mapping(&mut self) -> (r: &mut MappedPage4K)
        requires
            old(self).wf(),
        ensures
            *r == old(self).page(),
            final(r).wf() ==> final(self).wf(),
            final(self)@ == old(self)@,
            final(self).addr() == old(self).addr(),
            final(self).page() == *final(r),
    {
        self.mapping.as_mut().unwrap()
    }

    /// Sets the cell at column `x` of line `y` to the character `char` in the colours
    /// `fg` on `bg`, blinking or not.
    pub fn put_raw_char(&mut self, x: u8, y: u8, char: u8, fg: Color, bg: Color, blink: bool)
        requires
            old(self).wf(),
            x < VGA_WIDTH,
            y < VGA_HEIGHT,
        ensures
            final(self).wf(),
            final(self).addr() == old(self).addr(),
            final(self).page() == old(self).page(),
            final(self)@
                == with_cell(old(self)@, x as int, y as int, char, attribute(fg, bg, blink)),
    {
        let i = ((x as usize) + (y as usize) * 80) * 2;
        let f = fg.code();
        let b = bg.code();
        let blink_bit: u8 = if blink {
            0x80
        } else {
            0
        };
        assert(((f & 0xF) | ((b & 0x7) << 4) | blink_bit) == f + (b % 8) * 16 + blink_bit)
            by (bit_vector)
            requires
                f <= 15,
                b <= 15,
                blink_bit == 0 || blink_bit == 0x80,
        ;
        let high_byte: u8 = (f & 0xF) | ((b & 0x7) << 4) | blink_bit;
        self.frame[i] = char;
        self.frame[i + 1] = high_byte;
    }

    /// Sets the cell at column `x` of line `y` to the character `char`, white on black.
    pub fn put_char(&mut self, x: u8, y: u8, char: u8)
        requires
            old(self).wf(),
            x < VGA_WIDTH,
            y < VGA_HEIGHT,
        ensures
            final(self).wf(),
            final(self).addr() == old(self).addr(),
            final(self).page() == old(self).page(),
            final(self)@ == with_cell(old(self)@, x as int, y as int, char, 15),
    {
        self.put_raw_char(x, y, char, Color::White, Color::Black, false)
    }

    /// Moves every line up by one; the last line becomes empty.
    pub fn scroll_up_one_line(&mut self)
        requires
            old(self).wf(),
        ensures
            final(self).wf(),
            final(self).addr() == old(self).addr(),
            final(self).page() == old(self).page(),
            final(self)@ == scrolled(old(self)@),
    {
        let ghost start = self.frame@;
        let mut i: usize = 0;
        while i < VGA_BYTES - 160
            invariant
                i <= VGA_BYTES - 160,
                self.frame@.len() == VGA_BYTES,
                start.len() == VGA_BYTES,
                self.addr == old(self).addr,
                self.mapping == old(self).mapping,
                forall|j: int| 0 <= j < i ==> #[trigger] self.frame@[j] == start[j + 160],
                forall|j: int| i <= j < VGA_BYTES ==> #[trigger] self.frame@[j] == start[j],
            decreases VGA_BYTES - 160 - i,
        {
            let moved = self.frame[i + 160];
            self.frame[i] = moved;
            i = i + 1;
        }
        while i < VGA_BYTES
            invariant
                VGA_BYTES - 160 <= i <= VGA_BYTES,
                self.frame@.len() == VGA_BYTES,
                start.len() == VGA_BYTES,
                self.addr == old(self).addr,
                self.mapping == old(self).mapping,
                forall|j: int| 0 <= j < VGA_BYTES - 160 ==> #[trigger] self.frame@[j]
                    == start[j + 160],
                forall|j: int| VGA_BYTES - 160 <= j < i ==> #[trigger] self.frame@[j] == 0,
            decreases VGA_BYTES - i,
        {
            self.frame[i] = 0;
            i = i + 1;
        }
        assert(self.frame@ =~= scrolled(start));
    }

    /// Empties the screen.
    pub fn clear_screen(&mut self)
        requires
            old(self).wf(),
        ensures
            final(self).wf(),
            final(self).addr() == old(self).addr(),
            final(self).page() == old(self).page(),
            final(self)@ == blank(),
    {
        let mut x: u8 = 0;
        while x < VGA_WIDTH
            invariant
                x <= VGA_WIDTH,
                self.wf(),
                self.addr == old(self).addr,
                self.mapping == old(self).mapping,
                forall|cx: int, cy: int|
                    0 <= cx < x && 0 <= cy < 25 ==> self.frame@[#[trigger] cell(cx, cy)] == 0
                        && self.frame@[cell(cx, cy) + 1] == 0,
            decreases VGA_WIDTH - x,
        {
            let mut y: u8 = 0;
            while y < VGA_HEIGHT
                invariant
                    x < VGA_WIDTH,
                    y <= VGA_HEIGHT,
                    self.wf(),
                    self.addr == old(self).addr,
                    self.mapping == old(self).mapping,
                    forall|cx: int, cy: int|
                        0 <= cx < x && 0 <= cy < 25 ==> self.frame@[#[trigger] cell(cx, cy)] == 0
                            && self.frame@[cell(cx, cy) + 1] == 0,
                    forall|cy: int|
                        0 <= cy < y ==> self.frame@[#[trigger] cell(x as int, cy)] == 0
                            && self.frame@[cell(x as int, cy) + 1] == 0,
                decreases VGA_HEIGHT - y,
            {
                self.put_raw_char(x, y, 0, Color::Black, Color::Black, false);
                y = y + 1;
            }
            x = x + 1;
        }
        proof {
            assert forall|i: int| 0 <= i < VGA_BYTES implies #[trigger] self.frame@[i] == 0 by {
                let c = i / 2;
                let cx = c % 80;
                let cy = c / 80;
                assert(cell(cx, cy) == 2 * c);
                assert(i == cell(cx, cy) || i == cell(cx, cy) + 1);
            }
            assert(self.frame@ =~= blank());
        }
    }
}

/// What the output is: the column and the line of the cursor, and the screen's content.
pub struct OutputView {
    pub cur_x: u8,
    pub cur_y: u8,
    pub frame: Seq<u8>,
}

impl OutputView {
    /// The output after the cursor went to the start of the next line; on the last line
    /// the screen moves up instead.
    pub open spec fn next_line(self) -> OutputView {
        if self.cur_y == VGA_HEIGHT - 1 {
            OutputView { cur_x: 0, frame: scrolled(self.frame), ..self }
        } else {
            OutputView { cur_x: 0, cur_y: (self.cur_y + 1) as u8, ..self }
        }
    }

    /// The output after the byte `char` was written: a line feed goes to the next line, a
    /// carriage return to the start of the line, anything else into the cell under the
    /// cursor, which then moves on.
    pub open spec fn put(self, char: u8) -> OutputView {
        if char == 10 {
            self.next_line()
        } else if char == 13 {
            OutputView { cur_x: 0, ..self }
        } else {
            let written = OutputView {
                frame: with_cell(self.frame, self.cur_x as int, self.cur_y as int, char, 15),
                ..self
            };
            if self.cur_x == VGA_WIDTH - 1 {
                written.next_line()
            } else {
                OutputView { cur_x: (self.cur_x + 1) as u8, ..written }
            }
        }
    }

    /// The byte written for the character `c`: the character itself if it is below 256, a
    /// question mark if not.
    pub open spec fn byte_of(c: char) -> u8 {
        if c as u32 >= 256 {
            63u8
        } else {
            (c as u32) as u8
        }
    }

    /// The output after the characters of `s` were written one after the other.
    pub open spec fn put_all(self, s: Seq<char>) -> OutputView
        decreases s.len(),
    {
        if s.len() == 0 {
            self
        } else {
            self.put(Self::byte_of(s[0])).put_all(s.skip(1))
        }
    }
}

/// The text screen as a terminal: characters go where the cursor is.
pub struct VGAOutput {
    cur_x: u8,
    cur_y: u8,
    screen: VGA,
}

impl VGAOutput {
    pub closed spec fn view(&self) -> OutputView {
        OutputView { cur_x: self.cur_x, cur_y: self.cur_y, frame: self.screen@ }
    }

    pub closed spec fn wf(&self) -> bool {
        self.cur_x < VGA_WIDTH && self.cur_y < VGA_HEIGHT && self.screen.wf()
    }

    /// The screen at its usual address, emptied, with the cursor in the top left corner.
    pub fn default<S: Syscalls>(
        devices: &mut Devices,
        slots: &mut SlotAllocator,
        vspace: &mut RegionAllocator,
        untyped: &mut UntypedAllocator,
        tables: &mut PageTables,
        k: &mut Machine<S>,
    ) -> (r: Result<VGAOutput, KError>)
        requires
            old(devices).wf(),
            old(slots).wf(),
            old(vspace).wf(),
            old(untyped).wf(),
        ensures
            final(devices).wf(),
            final(slots).wf(),
            final(vspace).wf(),
            final(untyped).wf(),
            final(slots).free().subset_of(old(slots).free()),
            which(old(devices)@, VGA_BUFFER) >= old(devices)@.len() ==> r is Err && r->Err_0
                == KError::FailedLookup,
            r matches Ok(out) ==> out.wf() && out@ == (OutputView {
                cur_x: 0,
                cur_y: 0,
                frame: blank(),
            }),
            r matches Err(err) ==> err != KError::NoError && final(vspace).free()
                == old(vspace).free(),
            extends(old(k)@, final(k)@),
            page_can_be_mapped(old(devices)@, old(slots)@, old(vspace)@, VGA_BUFFER) && agreed(
                old(k)@,
                final(k)@,
            ) ==> r is Ok,
            page_can_be_mapped(old(devices)@, old(slots)@, old(vspace)@, VGA_BUFFER)
                && table_can_be_made(
                old(devices)@,
                old(slots)@,
                old(untyped)@,
                VGA_BUFFER,
            ) && agreed_but_table(old(k)@, final(k)@, steps_before_map(old(devices)@, VGA_BUFFER)) ==> r is Ok
                && final(tables)@.len() == old(tables)@.len() + 1,
    {
        let mut screen = VGA::vga_default_port(devices, slots, vspace, untyped, tables, k)?;
        screen.clear_screen();
        Ok(VGAOutput { cur_x: 0, cur_y: 0, screen })
    }

    /// Gives up the terminal for its screen.
    pub fn into_screen(self) -> (r: VGA)
        requires
            self.wf(),
        ensures
            r.wf(),
            r@ == self@.frame,
    {
        self.screen
    }

    /// Where the cursor is: its column and its line.
    pub fn cursor(&self) -> (r: (u8, u8))
        ensures
            r == (self@.cur_x, self@.cur_y),
    {
        (self.cur_x, self.cur_y)
    }

    /// The byte at `index` of the screen's content.
    pub fn byte_at(&self, index: usize) -> (r: u8)
        requires
            self.wf(),
            index < VGA_BYTES,
        ensures
            r == self@.frame[index as int],
    {
        self.screen.frame[index]
    }

    pub fn move_cursor(&mut self, x: u8, y: u8)
        requires
            old(self).wf(),
            x < VGA_WIDTH,
            y < VGA_HEIGHT,
        ensures
            final(self).wf(),
            final(self)@ == (OutputView { cur_x: x, cur_y: y, ..old(self)@ }),
    {
        self.cur_x = x;
        self.cur_y = y;
    }

    pub fn next_line(&mut self)
        requires
            old(self).wf(),
        ensures
            final(self).wf(),
            final(self)@ == old(self)@.next_line(),
    {
        self.cur_x = 0;
        if self.cur_y == VGA_HEIGHT - 1 {
            self.screen.scroll_up_one_line();
        } else {
            self.cur_y += 1;
        }
    }

    pub fn put_char(&mut self, char: u8)
        requires
            old(self).wf(),
        ensures
            final(self).wf(),
            final(self)@ == old(self)@.put(char),
    {
        if char == 10 {
            self.next_line()
        } else if char == 13 {
            self.cur_x = 0;
        } else {
            self.screen.put_char(self.cur_x, self.cur_y, char);
            if self.cur_x == VGA_WIDTH - 1 {
                self.next_line()
            } else {
                self.cur_x += 1
            }
        }
    }

    pub fn put_rchar(&mut self, char: char)
        requires
            old(self).wf(),
        ensures
            final(self).wf(),
            final(self)@ == old(self)@.put(OutputView::byte_of(char)),
    {
        if char as u32 >= 256 {
            self.put_char(63)
        } else {
            self.put_char((char as u32) as u8)
        }
    }

    pub fn put_string(&mut self, str: &str)
        requires
            old(self).wf(),
        ensures
            final(self).wf(),
            final(self)@ == old(self)@.put_all(str@),
    {
        let n = str.unicode_len();
        let mut i: usize = 0;
        assert(str@.skip(0) =~= str@);
        while i < n
            invariant
                i <= n,
                n == str@.len(),
                self.wf(),
                self@.put_all(str@.skip(i as int)) == old(self)@.put_all(str@),
            decreases n - i,
        {
            let chr = str.get_char(i);
            assert(str@.skip(i as int)[0] == chr);
            assert(str@.skip(i as int).skip(1) =~= str@.skip(i + 1));
            self.put_rchar(chr);
            i = i + 1;
        }
        assert(str@.skip(n as int).len() == 0);
    }
}

} // verus!
