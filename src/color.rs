use vstd::prelude::*;

verus! {

/// The red, green and blue channels of a colour written `0xRRGGBB`.
pub open spec fn channels(hex: u32) -> (u8, u8, u8) {
    (((hex / 0x10000) % 0x100) as u8, ((hex / 0x100) % 0x100) as u8, (hex % 0x100) as u8)
}

/// Hands out the colours of a palette in turn, starting over at the end.
pub struct ColorGenerator {
    pub colors: Vec<(u8, u8, u8)>,
    /// How many colours have been handed out; the next is at this count
    /// modulo the palette's length.
    pub idx: usize,
}

impl ColorGenerator {
    pub open spec fn wf(&self) -> bool {
        self.colors@.len() > 0
    }

    /// The channels of `0xRRGGBB`.
    pub fn hex_to_rgb(hex: u32) -> (r: (u8, u8, u8))
        requires
            hex <= 0xFFFFFF,
        ensures
            r == channels(hex),
    {
        (((hex / 0x10000) % 0x100) as u8, ((hex / 0x100) % 0x100) as u8, (hex % 0x100) as u8)
    }

    /// The default palette, from its first colour.
    pub fn new() -> (r: Self)
        ensures
            r.wf(),
            r.idx == 0,
            r.colors@ == seq![
                channels(0x5FB49C),
                channels(0xF2B134),
                channels(0xF93943),
                channels(0x6EF9F5),
                channels(0xB33C86),
                channels(0xE4FF1A),
                channels(0xFFB800),
                channels(0xFF5714),
                channels(0xFFEECF),
                channels(0x4D9078),
                channels(0xD5F2E3),
                channels(0xFBF5F3),
                channels(0xC6CAED),
                channels(0xA288E3),
                channels(0xCCFFCB),
            ],
    {
        let colors = vec![
            Self::hex_to_rgb(0x5FB49C),
            Self::hex_to_rgb(0xF2B134),
            Self::hex_to_rgb(0xF93943),
            Self::hex_to_rgb(0x6EF9F5),
            Self::hex_to_rgb(0xB33C86),
            Self::hex_to_rgb(0xE4FF1A),
            Self::hex_to_rgb(0xFFB800),
            Self::hex_to_rgb(0xFF5714),
            Self::hex_to_rgb(0xFFEECF),
            Self::hex_to_rgb(0x4D9078),
            Self::hex_to_rgb(0xD5F2E3),
            Self::hex_to_rgb(0xFBF5F3),
            Self::hex_to_rgb(0xC6CAED),
            Self::hex_to_rgb(0xA288E3),
            Self::hex_to_rgb(0xCCFFCB),
        ];
        ColorGenerator { colors, idx: 0 }
    }

    /// The next colour of the palette.
    pub fn next(&mut self) -> (r: (u8, u8, u8))
        requires
            old(self).wf(),
            old(self).idx < usize::MAX,
        ensures
            final(self).wf(),
            final(self).colors == old(self).colors,
            r == old(self).colors@[old(self).idx as int % old(self).colors@.len() as int],
            final(self).idx == old(self).idx + 1,
    {
        let r = self.colors[self.idx % self.colors.len()];
        self.idx = self.idx + 1;
        r
    }
}

} // verus!
