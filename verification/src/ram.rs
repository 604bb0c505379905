use vstd::prelude::*;

verus! {

/// Number of addressable bytes of memory.
pub const MEM_SIZE: usize = 4096;

/// Lowest address at which a program is loaded; everything below is reserved
/// for the built-in glyph sprites.
pub const PROGRAM_START: u16 = 0x200;

/// Each built-in glyph sprite is this many bytes (one byte per row).
pub const GLYPH_BYTES: u16 = 5;

/// The built-in sprite glyphs for the hexadecimal digits 0 through F:
/// sixteen glyphs of five rows each, glyph k occupying bytes [5k, 5k+5).
pub open spec fn font() -> Seq<u8> {
    seq![
        0xF0u8, 0x90, 0x90, 0x90, 0xF0, // 0
        0x20, 0x60, 0x20, 0x20, 0x70, // 1
        0xF0, 0x10, 0xF0, 0x80, 0xF0, // 2
        0xF0, 0x10, 0xF0, 0x10, 0xF0, // 3
        0x90, 0x90, 0xF0, 0x10, 0x10, // 4
        0xF0, 0x80, 0xF0, 0x10, 0xF0, // 5
        0xF0, 0x80, 0xF0, 0x90, 0xF0, // 6
        0xF0, 0x10, 0x20, 0x40, 0x40, // 7
        0xF0, 0x90, 0xF0, 0x90, 0xF0, // 8
        0xF0, 0x90, 0xF0, 0x10, 0xF0, // 9
        0xF0, 0x90, 0xF0, 0x90, 0x90, // A
        0xE0, 0x90, 0xE0, 0x90, 0xE0, // B
        0xF0, 0x80, 0x80, 0x80, 0xF0, // C
        0xE0, 0x90, 0x90, 0x90, 0xE0, // D
        0xF0, 0x80, 0xF0, 0x80, 0xF0, // E
        0xF0, 0x80, 0xF0, 0x80, 0x80, // F
    ]
}

/// A well-formed memory holds exactly `MEM_SIZE` bytes.
pub open spec fn ram_wf(s: Seq<u8>) -> bool {
    s.len() == MEM_SIZE
}

/// Flat byte-addressable memory. The low 80 bytes hold the glyph sprites;
/// the rest starts zeroed.
#[derive(Debug)]
pub struct Ram {
    bytes: Vec<u8>,
}

impl View for Ram {
    type V = Seq<u8>;

    closed spec fn view(&self) -> Seq<u8> {
        self.bytes@
    }
}

impl Ram {
    /// Fresh memory: the glyph sprites in the reserved low region, zeroes
    /// everywhere else.
    pub fn new() -> (r: Ram)
        ensures
            ram_wf(r@),
            forall|a: int| 0 <= a < 80 ==> r@[a] == font()[a],
            forall|a: int| 80 <= a < MEM_SIZE ==> r@[a] == 0u8,
    {
        let mut bytes: Vec<u8> = vec![0u8; MEM_SIZE];
        let glyphs: Vec<u8> = vec![
            0xF0u8, 0x90, 0x90, 0x90, 0xF0,
            0x20, 0x60, 0x20, 0x20, 0x70,
            0xF0, 0x10, 0xF0, 0x80, 0xF0,
            0xF0, 0x10, 0xF0, 0x10, 0xF0,
            0x90, 0x90, 0xF0, 0x10, 0x10,
            0xF0, 0x80, 0xF0, 0x10, 0xF0,
            0xF0, 0x80, 0xF0, 0x90, 0xF0,
            0xF0, 0x10, 0x20, 0x40, 0x40,
            0xF0, 0x90, 0xF0, 0x90, 0xF0,
            0xF0, 0x90, 0xF0, 0x10, 0xF0,
            0xF0, 0x90, 0xF0, 0x90, 0x90,
            0xE0, 0x90, 0xE0, 0x90, 0xE0,
            0xF0, 0x80, 0x80, 0x80, 0xF0,
            0xE0, 0x90, 0x90, 0x90, 0xE0,
            0xF0, 0x80, 0xF0, 0x80, 0xF0,
            0xF0, 0x80, 0xF0, 0x80, 0x80,
        ];
        proof {
            assert(glyphs@ =~= font());
        }
        let mut k: usize = 0;
        while k < 80
            invariant
                bytes@.len() == MEM_SIZE,
                glyphs@ == font(),
                k <= 80,
                forall|a: int| 0 <= a < k ==> bytes@[a] == font()[a],
                forall|a: int| k <= a < MEM_SIZE ==> bytes@[a] == 0u8,
            decreases 80 - k,
        {
            bytes[k] = glyphs[k];
            k = k + 1;
        }
        Ram { bytes }
    }

    /// The byte stored at `address`.
    pub fn read_byte(&self, address: u16) -> (r: u8)
        requires
            ram_wf(self@),
            address < MEM_SIZE,
        ensures
            r == self@[address as int],
    {
        self.bytes[address as usize]
    }

    /// Store `value` at `address`.
    pub fn write_byte(&mut self, address: u16, value: u8)
        requires
            ram_wf(old(self)@),
            address < MEM_SIZE,
        ensures
            ram_wf(final(self)@),
            final(self)@ == old(self)@.update(address as int, value),
    {
        self.bytes[address as usize] = value;
    }
}

} // verus!
