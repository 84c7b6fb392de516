//! Line-drawing glyphs: tree's initlinedraw() and its table of
//! character sets.
use vstd::prelude::*;
use vstd::string::StringSliceAdditionalSpecFns;
use crate::bytes::{ascii_lower, ascii_upper, bytes_eq, copy_bytes, find_window, has_window, to_ascii_lower, to_ascii_upper};
use crate::options::{Options, opt_bytes};

verus! {

/// The glyph sets tree knows.
#[derive(Clone, Copy, PartialEq, Eq, Structural, Debug)]
pub enum Glyphs {
    /// UTF-8 box drawing.
    Utf8,
    /// Plain ASCII.
    Ascii,
    /// Vt100 alternate-charset graphics (-A).
    Ansi,
    /// ISO-8859-1 and -3, with HTML entities.
    Latin13,
    /// ISO-8859-7, -8 and -9.
    Iso8859Greek,
    /// Shift_JIS.
    ShiftJis,
    /// EUC-JP.
    EucJp,
    /// EUC-KR.
    EucKr,
    /// ISO-2022-JP.
    Iso2022Jp,
    /// CP437 console graphics (-S).
    Ibm437,
    /// IBM850.
    IbmPs2,
    /// IBM869.
    IbmGreek,
    /// GB2312.
    Gb,
    /// Big5.
    Big5,
    /// VISCII.
    Viscii,
    /// KOI8-R and KOI8-U.
    Koi8,
    /// The Windows code pages.
    Windows,
}

/// The glyphs of one character set.
pub struct LineDraw {
    /// Continuation under a branch with more siblings.
    pub vert: Vec<u8>,
    pub tee: Vec<u8>,
    pub corner: Vec<u8>,
    /// --info comment brackets: multi-line top, bottom, middle and
    /// extension, and the single-line form.
    pub ctop: Vec<u8>,
    pub cbot: Vec<u8>,
    pub cmid: Vec<u8>,
    pub cext: Vec<u8>,
    pub csingle: Vec<u8>,
    /// The copyright glyph for version banners.
    pub copy: Vec<u8>,
}

/// The glyphs as plain values.
pub struct LineDrawView {
    pub vert: Seq<u8>,
    pub tee: Seq<u8>,
    pub corner: Seq<u8>,
    pub ctop: Seq<u8>,
    pub cbot: Seq<u8>,
    pub cmid: Seq<u8>,
    pub cext: Seq<u8>,
    pub csingle: Seq<u8>,
    pub copy: Seq<u8>,
}

impl View for LineDraw {
    type V = LineDrawView;

    open spec fn view(&self) -> LineDrawView {
        LineDrawView {
            vert: self.vert@,
            tee: self.tee@,
            corner: self.corner@,
            ctop: self.ctop@,
            cbot: self.cbot@,
            cmid: self.cmid@,
            cext: self.cext@,
            csingle: self.csingle@,
            copy: self.copy@,
        }
    }
}

/// The glyphs of each set; all but UTF-8 bracket --info comments with " [".
pub open spec fn glyphs_view(g: Glyphs) -> LineDrawView {
    match g {
        Glyphs::Utf8 => LineDrawView {
            vert: seq![0xe2u8, 0x94, 0x82, 0xc2, 0xa0, 0xc2, 0xa0],
            tee: seq![0xe2u8, 0x94, 0x9c, 0xe2, 0x94, 0x80, 0xe2, 0x94, 0x80],
            corner: seq![0xe2u8, 0x94, 0x94, 0xe2, 0x94, 0x80, 0xe2, 0x94, 0x80],
            ctop: seq![0x20u8, 0xe2, 0x8e, 0xa7],
            cbot: seq![0x20u8, 0xe2, 0x8e, 0xa9],
            cmid: seq![0x20u8, 0xe2, 0x8e, 0xa8],
            cext: seq![0x20u8, 0xe2, 0x8e, 0xaa],
            csingle: seq![0x20u8, 0x7b],
            copy: seq![0xc2u8, 0xa9],
        },
        Glyphs::Ascii => LineDrawView {
            vert: seq![0x7cu8, 0x20, 0x20],
            tee: seq![0x7cu8, 0x2d, 0x2d],
            corner: seq![0x60u8, 0x2d, 0x2d],
            ctop: seq![0x20u8, 0x5b],
            cbot: seq![0x20u8, 0x5b],
            cmid: seq![0x20u8, 0x5b],
            cext: seq![0x20u8, 0x5b],
            csingle: seq![0x20u8, 0x5b],
            copy: seq![0x28u8, 0x63, 0x29],
        },
        Glyphs::Ansi => LineDrawView {
            vert: seq![0x1bu8, 0x28, 0x30, 0x78, 0x20, 0x20, 0x1b, 0x28, 0x42],
            tee: seq![0x1bu8, 0x28, 0x30, 0x74, 0x71, 0x71, 0x1b, 0x28, 0x42],
            corner: seq![0x1bu8, 0x28, 0x30, 0x6d, 0x71, 0x71, 0x1b, 0x28, 0x42],
            ctop: seq![0x20u8, 0x5b],
            cbot: seq![0x20u8, 0x5b],
            cmid: seq![0x20u8, 0x5b],
            cext: seq![0x20u8, 0x5b],
            csingle: seq![0x20u8, 0x5b],
            copy: seq![0x1bu8, 0x28, 0x30, 0xa9, 0x1b, 0x28, 0x42],
        },
        Glyphs::Latin13 => LineDrawView {
            vert: seq![0x7cu8, 0x20, 0x20],
            tee: seq![0x7cu8, 0x2d, 0x2d],
            corner: seq![0x26u8, 0x6d, 0x69, 0x64, 0x64, 0x6f, 0x74, 0x3b, 0x2d, 0x2d],
            ctop: seq![0x20u8, 0x5b],
            cbot: seq![0x20u8, 0x5b],
            cmid: seq![0x20u8, 0x5b],
            cext: seq![0x20u8, 0x5b],
            csingle: seq![0x20u8, 0x5b],
            copy: seq![0x26u8, 0x63, 0x6f, 0x70, 0x79, 0x3b],
        },
        Glyphs::Iso8859Greek => LineDrawView {
            vert: seq![0x7cu8, 0x20, 0x20],
            tee: seq![0x7cu8, 0x2d, 0x2d],
            corner: seq![0x26u8, 0x6d, 0x69, 0x64, 0x64, 0x6f, 0x74, 0x3b, 0x2d, 0x2d],
            ctop: seq![0x20u8, 0x5b],
            cbot: seq![0x20u8, 0x5b],
            cmid: seq![0x20u8, 0x5b],
            cext: seq![0x20u8, 0x5b],
            csingle: seq![0x20u8, 0x5b],
            copy: seq![0x28u8, 0x63, 0x29],
        },
        Glyphs::ShiftJis => LineDrawView {
            vert: seq![0x84u8, 0xa0, 0x20, 0x20],
            tee: seq![0x84u8, 0xa5, 0x84, 0x9f, 0x84, 0x9f],
            corner: seq![0x84u8, 0xa4, 0x84, 0x9f, 0x84, 0x9f],
            ctop: seq![0x20u8, 0x5b],
            cbot: seq![0x20u8, 0x5b],
            cmid: seq![0x20u8, 0x5b],
            cext: seq![0x20u8, 0x5b],
            csingle: seq![0x20u8, 0x5b],
            copy: seq![0x28u8, 0x63, 0x29],
        },
        Glyphs::EucJp => LineDrawView {
            vert: seq![0xa8u8, 0xa2, 0x20, 0x20],
            tee: seq![0xa8u8, 0xa7, 0xa8, 0xa1, 0xa8, 0xa1],
            corner: seq![0xa8u8, 0xa6, 0xa8, 0xa1, 0xa8, 0xa1],
            ctop: seq![0x20u8, 0x5b],
            cbot: seq![0x20u8, 0x5b],
            cmid: seq![0x20u8, 0x5b],
            cext: seq![0x20u8, 0x5b],
            csingle: seq![0x20u8, 0x5b],
            copy: seq![0x28u8, 0x63, 0x29],
        },
        Glyphs::EucKr => LineDrawView {
            vert: seq![0xa6u8, 0xa2, 0x20, 0x20],
            tee: seq![0xa6u8, 0xa7, 0xa6, 0xa1, 0xa6, 0xa1],
            corner: seq![0xa6u8, 0xa6, 0xa6, 0xa1, 0xa6, 0xa1],
            ctop: seq![0x20u8, 0x5b],
            cbot: seq![0x20u8, 0x5b],
            cmid: seq![0x20u8, 0x5b],
            cext: seq![0x20u8, 0x5b],
            csingle: seq![0x20u8, 0x5b],
            copy: seq![0x28u8, 0x63, 0x29],
        },
        Glyphs::Iso2022Jp => LineDrawView {
            vert: seq![0x1bu8, 0x24, 0x42, 0x28, 0x22, 0x1b, 0x28, 0x42, 0x20, 0x20],
            tee: seq![0x1bu8, 0x24, 0x42, 0x28, 0x27, 0x1b, 0x24, 0x42, 0x28, 0x21, 0x1b, 0x24, 0x42, 0x28, 0x21, 0x1b, 0x28, 0x42],
            corner: seq![0x1bu8, 0x24, 0x42, 0x28, 0x26, 0x1b, 0x24, 0x42, 0x28, 0x21, 0x1b, 0x24, 0x42, 0x28, 0x21, 0x1b, 0x28, 0x42],
            ctop: seq![0x20u8, 0x5b],
            cbot: seq![0x20u8, 0x5b],
            cmid: seq![0x20u8, 0x5b],
            cext: seq![0x20u8, 0x5b],
            csingle: seq![0x20u8, 0x5b],
            copy: seq![0x28u8, 0x63, 0x29],
        },
        Glyphs::Ibm437 => LineDrawView {
            vert: seq![0xb3u8, 0x20, 0x20],
            tee: seq![0xc3u8, 0xc4, 0xc4],
            corner: seq![0xc0u8, 0xc4, 0xc4],
            ctop: seq![0x20u8, 0x5b],
            cbot: seq![0x20u8, 0x5b],
            cmid: seq![0x20u8, 0x5b],
            cext: seq![0x20u8, 0x5b],
            csingle: seq![0x20u8, 0x5b],
            copy: seq![0x28u8, 0x63, 0x29],
        },
        Glyphs::IbmPs2 => LineDrawView {
            vert: seq![0xb3u8, 0x20, 0x20],
            tee: seq![0xc3u8, 0xc4, 0xc4],
            corner: seq![0xc0u8, 0xc4, 0xc4],
            ctop: seq![0x20u8, 0x5b],
            cbot: seq![0x20u8, 0x5b],
            cmid: seq![0x20u8, 0x5b],
            cext: seq![0x20u8, 0x5b],
            csingle: seq![0x20u8, 0x5b],
            copy: seq![0x97u8],
        },
        Glyphs::IbmGreek => LineDrawView {
            vert: seq![0xb3u8, 0x20, 0x20],
            tee: seq![0xc3u8, 0xc4, 0xc4],
            corner: seq![0xc0u8, 0xc4, 0xc4],
            ctop: seq![0x20u8, 0x5b],
            cbot: seq![0x20u8, 0x5b],
            cmid: seq![0x20u8, 0x5b],
            cext: seq![0x20u8, 0x5b],
            csingle: seq![0x20u8, 0x5b],
            copy: seq![0xb8u8],
        },
        Glyphs::Gb => LineDrawView {
            vert: seq![0xa9u8, 0xa6, 0x20, 0x20],
            tee: seq![0xa9u8, 0xc0, 0xa9, 0xa4, 0xa9, 0xa4],
            corner: seq![0xa9u8, 0xb8, 0xa9, 0xa4, 0xa9, 0xa4],
            ctop: seq![0x20u8, 0x5b],
            cbot: seq![0x20u8, 0x5b],
            cmid: seq![0x20u8, 0x5b],
            cext: seq![0x20u8, 0x5b],
            csingle: seq![0x20u8, 0x5b],
            copy: seq![0x28u8, 0x63, 0x29],
        },
        Glyphs::Big5 => LineDrawView {
            vert: seq![0xa2u8, 0x78, 0x20, 0x20],
            tee: seq![0xa2u8, 0x75, 0xa2, 0x77, 0xa2, 0x77],
            corner: seq![0xa2u8, 0x7c, 0xa2, 0x77, 0xa2, 0x77],
            ctop: seq![0x20u8, 0x5b],
            cbot: seq![0x20u8, 0x5b],
            cmid: seq![0x20u8, 0x5b],
            cext: seq![0x20u8, 0x5b],
            csingle: seq![0x20u8, 0x5b],
            copy: seq![0x28u8, 0x63, 0x29],
        },
        Glyphs::Viscii => LineDrawView {
            vert: seq![0x7cu8, 0x20, 0x20],
            tee: seq![0x7cu8, 0x2d, 0x2d],
            corner: seq![0x60u8, 0x2d, 0x2d],
            ctop: seq![0x20u8, 0x5b],
            cbot: seq![0x20u8, 0x5b],
            cmid: seq![0x20u8, 0x5b],
            cext: seq![0x20u8, 0x5b],
            csingle: seq![0x20u8, 0x5b],
            copy: seq![0xf9u8],
        },
        Glyphs::Koi8 => LineDrawView {
            vert: seq![0x81u8, 0x20, 0x20],
            tee: seq![0x86u8, 0x80, 0x80],
            corner: seq![0x84u8, 0x80, 0x80],
            ctop: seq![0x20u8, 0x5b],
            cbot: seq![0x20u8, 0x5b],
            cmid: seq![0x20u8, 0x5b],
            cext: seq![0x20u8, 0x5b],
            csingle: seq![0x20u8, 0x5b],
            copy: seq![0xbfu8],
        },
        Glyphs::Windows => LineDrawView {
            vert: seq![0x7cu8, 0x20, 0x20],
            tee: seq![0x7cu8, 0x2d, 0x2d],
            corner: seq![0x60u8, 0x2d, 0x2d],
            ctop: seq![0x20u8, 0x5b],
            cbot: seq![0x20u8, 0x5b],
            cmid: seq![0x20u8, 0x5b],
            cext: seq![0x20u8, 0x5b],
            csingle: seq![0x20u8, 0x5b],
            copy: seq![0xa9u8],
        },
    }
}

impl LineDraw {
    /// The glyphs of set `g`.
    pub fn of(g: Glyphs) -> (r: LineDraw)
        ensures
            r@ == glyphs_view(g),
    {
        let r = match g {
            Glyphs::Utf8 => LineDraw {
                vert: vec![0xe2u8, 0x94, 0x82, 0xc2, 0xa0, 0xc2, 0xa0],
                tee: vec![0xe2u8, 0x94, 0x9c, 0xe2, 0x94, 0x80, 0xe2, 0x94, 0x80],
                corner: vec![0xe2u8, 0x94, 0x94, 0xe2, 0x94, 0x80, 0xe2, 0x94, 0x80],
                ctop: vec![0x20u8, 0xe2, 0x8e, 0xa7],
                cbot: vec![0x20u8, 0xe2, 0x8e, 0xa9],
                cmid: vec![0x20u8, 0xe2, 0x8e, 0xa8],
                cext: vec![0x20u8, 0xe2, 0x8e, 0xaa],
                csingle: vec![0x20u8, 0x7b],
                copy: vec![0xc2u8, 0xa9],
            },
            Glyphs::Ascii => LineDraw {
                vert: vec![0x7cu8, 0x20, 0x20],
                tee: vec![0x7cu8, 0x2d, 0x2d],
                corner: vec![0x60u8, 0x2d, 0x2d],
                ctop: vec![0x20u8, 0x5b],
                cbot: vec![0x20u8, 0x5b],
                cmid: vec![0x20u8, 0x5b],
                cext: vec![0x20u8, 0x5b],
                csingle: vec![0x20u8, 0x5b],
                copy: vec![0x28u8, 0x63, 0x29],
            },
            Glyphs::Ansi => LineDraw {
                vert: vec![0x1bu8, 0x28, 0x30, 0x78, 0x20, 0x20, 0x1b, 0x28, 0x42],
                tee: vec![0x1bu8, 0x28, 0x30, 0x74, 0x71, 0x71, 0x1b, 0x28, 0x42],
                corner: vec![0x1bu8, 0x28, 0x30, 0x6d, 0x71, 0x71, 0x1b, 0x28, 0x42],
                ctop: vec![0x20u8, 0x5b],
                cbot: vec![0x20u8, 0x5b],
                cmid: vec![0x20u8, 0x5b],
                cext: vec![0x20u8, 0x5b],
                csingle: vec![0x20u8, 0x5b],
                copy: vec![0x1bu8, 0x28, 0x30, 0xa9, 0x1b, 0x28, 0x42],
            },
            Glyphs::Latin13 => LineDraw {
                vert: vec![0x7cu8, 0x20, 0x20],
                tee: vec![0x7cu8, 0x2d, 0x2d],
                corner: vec![0x26u8, 0x6d, 0x69, 0x64, 0x64, 0x6f, 0x74, 0x3b, 0x2d, 0x2d],
                ctop: vec![0x20u8, 0x5b],
                cbot: vec![0x20u8, 0x5b],
                cmid: vec![0x20u8, 0x5b],
                cext: vec![0x20u8, 0x5b],
                csingle: vec![0x20u8, 0x5b],
                copy: vec![0x26u8, 0x63, 0x6f, 0x70, 0x79, 0x3b],
            },
            Glyphs::Iso8859Greek => LineDraw {
                vert: vec![0x7cu8, 0x20, 0x20],
                tee: vec![0x7cu8, 0x2d, 0x2d],
                corner: vec![0x26u8, 0x6d, 0x69, 0x64, 0x64, 0x6f, 0x74, 0x3b, 0x2d, 0x2d],
                ctop: vec![0x20u8, 0x5b],
                cbot: vec![0x20u8, 0x5b],
                cmid: vec![0x20u8, 0x5b],
                cext: vec![0x20u8, 0x5b],
                csingle: vec![0x20u8, 0x5b],
                copy: vec![0x28u8, 0x63, 0x29],
            },
            Glyphs::ShiftJis => LineDraw {
                vert: vec![0x84u8, 0xa0, 0x20, 0x20],
                tee: vec![0x84u8, 0xa5, 0x84, 0x9f, 0x84, 0x9f],
                corner: vec![0x84u8, 0xa4, 0x84, 0x9f, 0x84, 0x9f],
                ctop: vec![0x20u8, 0x5b],
                cbot: vec![0x20u8, 0x5b],
                cmid: vec![0x20u8, 0x5b],
                cext: vec![0x20u8, 0x5b],
                csingle: vec![0x20u8, 0x5b],
                copy: vec![0x28u8, 0x63, 0x29],
            },
            Glyphs::EucJp => LineDraw {
                vert: vec![0xa8u8, 0xa2, 0x20, 0x20],
                tee: vec![0xa8u8, 0xa7, 0xa8, 0xa1, 0xa8, 0xa1],
                corner: vec![0xa8u8, 0xa6, 0xa8, 0xa1, 0xa8, 0xa1],
                ctop: vec![0x20u8, 0x5b],
                cbot: vec![0x20u8, 0x5b],
                cmid: vec![0x20u8, 0x5b],
                cext: vec![0x20u8, 0x5b],
                csingle: vec![0x20u8, 0x5b],
                copy: vec![0x28u8, 0x63, 0x29],
            },
            Glyphs::EucKr => LineDraw {
                vert: vec![0xa6u8, 0xa2, 0x20, 0x20],
                tee: vec![0xa6u8, 0xa7, 0xa6, 0xa1, 0xa6, 0xa1],
                corner: vec![0xa6u8, 0xa6, 0xa6, 0xa1, 0xa6, 0xa1],
                ctop: vec![0x20u8, 0x5b],
                cbot: vec![0x20u8, 0x5b],
                cmid: vec![0x20u8, 0x5b],
                cext: vec![0x20u8, 0x5b],
                csingle: vec![0x20u8, 0x5b],
                copy: vec![0x28u8, 0x63, 0x29],
            },
            Glyphs::Iso2022Jp => LineDraw {
                vert: vec![0x1bu8, 0x24, 0x42, 0x28, 0x22, 0x1b, 0x28, 0x42, 0x20, 0x20],
                tee: vec![0x1bu8, 0x24, 0x42, 0x28, 0x27, 0x1b, 0x24, 0x42, 0x28, 0x21, 0x1b, 0x24, 0x42, 0x28, 0x21, 0x1b, 0x28, 0x42],
                corner: vec![0x1bu8, 0x24, 0x42, 0x28, 0x26, 0x1b, 0x24, 0x42, 0x28, 0x21, 0x1b, 0x24, 0x42, 0x28, 0x21, 0x1b, 0x28, 0x42],
                ctop: vec![0x20u8, 0x5b],
                cbot: vec![0x20u8, 0x5b],
                cmid: vec![0x20u8, 0x5b],
                cext: vec![0x20u8, 0x5b],
                csingle: vec![0x20u8, 0x5b],
                copy: vec![0x28u8, 0x63, 0x29],
            },
            Glyphs::Ibm437 => LineDraw {
                vert: vec![0xb3u8, 0x20, 0x20],
                tee: vec![0xc3u8, 0xc4, 0xc4],
                corner: vec![0xc0u8, 0xc4, 0xc4],
                ctop: vec![0x20u8, 0x5b],
                cbot: vec![0x20u8, 0x5b],
                cmid: vec![0x20u8, 0x5b],
                cext: vec![0x20u8, 0x5b],
                csingle: vec![0x20u8, 0x5b],
                copy: vec![0x28u8, 0x63, 0x29],
            },
            Glyphs::IbmPs2 => LineDraw {
                vert: vec![0xb3u8, 0x20, 0x20],
                tee: vec![0xc3u8, 0xc4, 0xc4],
                corner: vec![0xc0u8, 0xc4, 0xc4],
                ctop: vec![0x20u8, 0x5b],
                cbot: vec![0x20u8, 0x5b],
                cmid: vec![0x20u8, 0x5b],
                cext: vec![0x20u8, 0x5b],
                csingle: vec![0x20u8, 0x5b],
                copy: vec![0x97u8],
            },
            Glyphs::IbmGreek => LineDraw {
                vert: vec![0xb3u8, 0x20, 0x20],
                tee: vec![0xc3u8, 0xc4, 0xc4],
                corner: vec![0xc0u8, 0xc4, 0xc4],
                ctop: vec![0x20u8, 0x5b],
                cbot: vec![0x20u8, 0x5b],
                cmid: vec![0x20u8, 0x5b],
                cext: vec![0x20u8, 0x5b],
                csingle: vec![0x20u8, 0x5b],
                copy: vec![0xb8u8],
            },
            Glyphs::Gb => LineDraw {
                vert: vec![0xa9u8, 0xa6, 0x20, 0x20],
                tee: vec![0xa9u8, 0xc0, 0xa9, 0xa4, 0xa9, 0xa4],
                corner: vec![0xa9u8, 0xb8, 0xa9, 0xa4, 0xa9, 0xa4],
                ctop: vec![0x20u8, 0x5b],
                cbot: vec![0x20u8, 0x5b],
                cmid: vec![0x20u8, 0x5b],
                cext: vec![0x20u8, 0x5b],
                csingle: vec![0x20u8, 0x5b],
                copy: vec![0x28u8, 0x63, 0x29],
            },
            Glyphs::Big5 => LineDraw {
                vert: vec![0xa2u8, 0x78, 0x20, 0x20],
                tee: vec![0xa2u8, 0x75, 0xa2, 0x77, 0xa2, 0x77],
                corner: vec![0xa2u8, 0x7c, 0xa2, 0x77, 0xa2, 0x77],
                ctop: vec![0x20u8, 0x5b],
                cbot: vec![0x20u8, 0x5b],
                cmid: vec![0x20u8, 0x5b],
                cext: vec![0x20u8, 0x5b],
                csingle: vec![0x20u8, 0x5b],
                copy: vec![0x28u8, 0x63, 0x29],
            },
            Glyphs::Viscii => LineDraw {
                vert: vec![0x7cu8, 0x20, 0x20],
                tee: vec![0x7cu8, 0x2d, 0x2d],
                corner: vec![0x60u8, 0x2d, 0x2d],
                ctop: vec![0x20u8, 0x5b],
                cbot: vec![0x20u8, 0x5b],
                cmid: vec![0x20u8, 0x5b],
                cext: vec![0x20u8, 0x5b],
                csingle: vec![0x20u8, 0x5b],
                copy: vec![0xf9u8],
            },
            Glyphs::Koi8 => LineDraw {
                vert: vec![0x81u8, 0x20, 0x20],
                tee: vec![0x86u8, 0x80, 0x80],
                corner: vec![0x84u8, 0x80, 0x80],
                ctop: vec![0x20u8, 0x5b],
                cbot: vec![0x20u8, 0x5b],
                cmid: vec![0x20u8, 0x5b],
                cext: vec![0x20u8, 0x5b],
                csingle: vec![0x20u8, 0x5b],
                copy: vec![0xbfu8],
            },
            Glyphs::Windows => LineDraw {
                vert: vec![0x7cu8, 0x20, 0x20],
                tee: vec![0x7cu8, 0x2d, 0x2d],
                corner: vec![0x60u8, 0x2d, 0x2d],
                ctop: vec![0x20u8, 0x5b],
                cbot: vec![0x20u8, 0x5b],
                cmid: vec![0x20u8, 0x5b],
                cext: vec![0x20u8, 0x5b],
                csingle: vec![0x20u8, 0x5b],
                copy: vec![0xa9u8],
            },
        };
        assert(r@.vert =~= glyphs_view(g).vert);
        assert(r@.tee =~= glyphs_view(g).tee);
        assert(r@.corner =~= glyphs_view(g).corner);
        assert(r@.ctop =~= glyphs_view(g).ctop);
        assert(r@.cbot =~= glyphs_view(g).cbot);
        assert(r@.cmid =~= glyphs_view(g).cmid);
        assert(r@.cext =~= glyphs_view(g).cext);
        assert(r@.csingle =~= glyphs_view(g).csingle);
        assert(r@.copy =~= glyphs_view(g).copy);
        r
    }
}

/// tree's table of character sets: the names of each, matched without
/// regard to ASCII case, in tree's order.
pub open spec fn charset_table() -> Seq<(Seq<&'static str>, Glyphs)> {
    seq![
        (seq!["ANSI"], Glyphs::Ansi),
        (seq!["ISO-8859-1", "ISO-8859-1:1987", "ISO_8859-1", "latin1", "l1", "IBM819", "CP819", "csISOLatin1", "ISO-8859-3", "ISO_8859-3:1988", "ISO_8859-3", "latin3", "ls", "csISOLatin3"], Glyphs::Latin13),
        (seq!["ISO-8859-7", "ISO_8859-7:1987", "ISO_8859-7", "ELOT_928", "ECMA-118", "greek", "greek8", "csISOLatinGreek", "ISO-8859-8", "ISO_8859-8:1988", "iso-ir-138", "ISO_8859-8", "hebrew", "csISOLatinHebrew", "ISO-8859-9", "ISO_8859-9:1989", "iso-ir-148", "ISO_8859-9", "latin5", "l5", "csISOLatin5"], Glyphs::Iso8859Greek),
        (seq!["Shift_JIS", "MS_Kanji", "csShiftJIS"], Glyphs::ShiftJis),
        (seq!["EUC-JP", "Extended_UNIX_Code_Packed_Format_for_Japanese", "csEUCPkdFmtJapanese"], Glyphs::EucJp),
        (seq!["EUC-KR", "csEUCKR"], Glyphs::EucKr),
        (seq!["ISO-2022-JP", "csISO2022JP", "ISO-2022-JP-2", "csISO2022JP2"], Glyphs::Iso2022Jp),
        (seq!["IBM437", "cp437", "437", "csPC8CodePage437", "IBM852", "cp852", "852", "csPCp852", "IBM863", "cp863", "863", "csIBM863", "IBM855", "cp855", "855", "csIBM855", "IBM865", "cp865", "865", "csIBM865", "IBM866", "cp866", "866", "csIBM866"], Glyphs::Ibm437),
        (seq!["IBM850", "cp850", "850", "csPC850Multilingual", "IBM00858", "CCSID00858", "CP00858", "PC-Multilingual-850+euro"], Glyphs::IbmPs2),
        (seq!["IBM869", "cp869", "869", "cp-gr", "csIBM869"], Glyphs::IbmGreek),
        (seq!["GB2312", "csGB2312"], Glyphs::Gb),
        (seq!["UTF-8", "utf8"], Glyphs::Utf8),
        (seq!["Big5", "csBig5"], Glyphs::Big5),
        (seq!["VISCII", "csVISCII"], Glyphs::Viscii),
        (seq!["KOI8-R", "csKOI8R", "KOI8-U"], Glyphs::Koi8),
        (seq!["ISO-8859-1-Windows-3.1-Latin-1", "csWindows31Latin1", "ISO-8859-2-Windows-Latin-2", "csWindows31Latin2", "windows-1250", "windows-1251", "windows-1253", "windows-1254", "windows-1255", "windows-1256", "windows-1256", "windows-1257"], Glyphs::Windows),
    ]
}

fn charset_rows() -> (r: Vec<(Vec<&'static str>, Glyphs)>)
    ensures
        r@.len() == charset_table().len(),
        forall|i: int| 0 <= i < r@.len() ==> (#[trigger] r@[i]).0@ == charset_table()[i].0 && r@[i].1 == charset_table()[i].1,
{
    let r = vec![
        (vec!["ANSI"], Glyphs::Ansi),
        (vec!["ISO-8859-1", "ISO-8859-1:1987", "ISO_8859-1", "latin1", "l1", "IBM819", "CP819", "csISOLatin1", "ISO-8859-3", "ISO_8859-3:1988", "ISO_8859-3", "latin3", "ls", "csISOLatin3"], Glyphs::Latin13),
        (vec!["ISO-8859-7", "ISO_8859-7:1987", "ISO_8859-7", "ELOT_928", "ECMA-118", "greek", "greek8", "csISOLatinGreek", "ISO-8859-8", "ISO_8859-8:1988", "iso-ir-138", "ISO_8859-8", "hebrew", "csISOLatinHebrew", "ISO-8859-9", "ISO_8859-9:1989", "iso-ir-148", "ISO_8859-9", "latin5", "l5", "csISOLatin5"], Glyphs::Iso8859Greek),
        (vec!["Shift_JIS", "MS_Kanji", "csShiftJIS"], Glyphs::ShiftJis),
        (vec!["EUC-JP", "Extended_UNIX_Code_Packed_Format_for_Japanese", "csEUCPkdFmtJapanese"], Glyphs::EucJp),
        (vec!["EUC-KR", "csEUCKR"], Glyphs::EucKr),
        (vec!["ISO-2022-JP", "csISO2022JP", "ISO-2022-JP-2", "csISO2022JP2"], Glyphs::Iso2022Jp),
        (vec!["IBM437", "cp437", "437", "csPC8CodePage437", "IBM852", "cp852", "852", "csPCp852", "IBM863", "cp863", "863", "csIBM863", "IBM855", "cp855", "855", "csIBM855", "IBM865", "cp865", "865", "csIBM865", "IBM866", "cp866", "866", "csIBM866"], Glyphs::Ibm437),
        (vec!["IBM850", "cp850", "850", "csPC850Multilingual", "IBM00858", "CCSID00858", "CP00858", "PC-Multilingual-850+euro"], Glyphs::IbmPs2),
        (vec!["IBM869", "cp869", "869", "cp-gr", "csIBM869"], Glyphs::IbmGreek),
        (vec!["GB2312", "csGB2312"], Glyphs::Gb),
        (vec!["UTF-8", "utf8"], Glyphs::Utf8),
        (vec!["Big5", "csBig5"], Glyphs::Big5),
        (vec!["VISCII", "csVISCII"], Glyphs::Viscii),
        (vec!["KOI8-R", "csKOI8R", "KOI8-U"], Glyphs::Koi8),
        (vec!["ISO-8859-1-Windows-3.1-Latin-1", "csWindows31Latin1", "ISO-8859-2-Windows-Latin-2", "csWindows31Latin2", "windows-1250", "windows-1251", "windows-1253", "windows-1254", "windows-1255", "windows-1256", "windows-1256", "windows-1257"], Glyphs::Windows),
    ];
    assert forall|i: int| 0 <= i < r@.len() implies (#[trigger] r@[i]).0@ == charset_table()[i].0 && r@[i].1 == charset_table()[i].1 by {
    }
    r
}

/// Some alias names `name`, ASCII case aside.
pub open spec fn alias_hit(aliases: Seq<&'static str>, name: Seq<u8>) -> bool {
    exists|k: int| 0 <= k < aliases.len() && ascii_lower((#[trigger] aliases[k]).spec_bytes()) == ascii_lower(name)
}

/// The set of the first row from `i` on with an alias naming `name`;
/// ASCII when there is none.
pub open spec fn glyphs_from(table: Seq<(Seq<&'static str>, Glyphs)>, i: int, name: Seq<u8>) -> Glyphs
    decreases table.len() - i,
{
    if i < 0 || i >= table.len() {
        Glyphs::Ascii
    } else if alias_hit(table[i].0, name) {
        table[i].1
    } else {
        glyphs_from(table, i + 1, name)
    }
}

/// The glyph set a character set name selects.
pub open spec fn glyphs_named(name: Seq<u8>) -> Glyphs {
    glyphs_from(charset_table(), 0, name)
}

fn any_alias(aliases: &Vec<&'static str>, lower: &[u8], Ghost(name): Ghost<Seq<u8>>) -> (r: bool)
    requires
        lower@ == ascii_lower(name),
    ensures
        r == alias_hit(aliases@, name),
{
    let mut k: usize = 0;
    while k < aliases.len()
        invariant
            k <= aliases@.len(),
            lower@ == ascii_lower(name),
            forall|j: int| 0 <= j < k ==> ascii_lower((#[trigger] aliases@[j]).spec_bytes()) != ascii_lower(name),
        decreases aliases@.len() - k,
    {
        let a = to_ascii_lower(aliases[k].as_bytes());
        if bytes_eq(a.as_slice(), lower) {
            return true;
        }
        k = k + 1;
    }
    false
}

/// The glyph set a character set name selects: the first row of the
/// table with a matching alias, ASCII when none matches.
pub fn by_name(name: &[u8]) -> (r: Glyphs)
    ensures
        r == glyphs_named(name@),
{
    let rows = charset_rows();
    let lower = to_ascii_lower(name);
    let mut i: usize = 0;
    while i < rows.len()
        invariant
            i <= rows@.len(),
            rows@.len() == charset_table().len(),
            forall|j: int| 0 <= j < rows@.len() ==> (#[trigger] rows@[j]).0@ == charset_table()[j].0 && rows@[j].1 == charset_table()[j].1,
            lower@ == ascii_lower(name@),
            glyphs_from(charset_table(), i as int, name@) == glyphs_named(name@),
        decreases rows@.len() - i,
    {
        let row = &rows[i];
        assert(rows@[i as int].0@ == charset_table()[i as int].0);
        if any_alias(&row.0, lower.as_slice(), Ghost(name@)) {
            return row.1;
        }
        i = i + 1;
    }
    Glyphs::Ascii
}

/// What the environment says about the character set, as plain values.
pub struct LocaleEnv {
    /// TREE_CHARSET.
    pub tree_charset: Option<Vec<u8>>,
    /// LC_ALL, LC_CTYPE and LANG.
    pub lc_all: Option<Vec<u8>>,
    pub lc_ctype: Option<Vec<u8>>,
    pub lang: Option<Vec<u8>>,
}

/// The first of LC_ALL, LC_CTYPE and LANG that is set and not empty.
pub open spec fn locale_value(env: LocaleEnv) -> Option<Seq<u8>> {
    let a = opt_bytes(env.lc_all);
    let c = opt_bytes(env.lc_ctype);
    let l = opt_bytes(env.lang);
    if a is Some && a.unwrap().len() > 0 {
        a
    } else if c is Some && c.unwrap().len() > 0 {
        c
    } else if l is Some && l.unwrap().len() > 0 {
        l
    } else {
        None
    }
}

/// "UTF-8" and "UTF8".
pub open spec fn utf8_dash() -> Seq<u8> {
    seq![0x55u8, 0x54, 0x46, 0x2d, 0x38]
}

pub open spec fn utf8_plain() -> Seq<u8> {
    seq![0x55u8, 0x54, 0x46, 0x38]
}

/// The locale names UTF-8 (in any case, with or without the dash).
pub open spec fn mentions_utf8(v: Seq<u8>) -> bool {
    has_window(ascii_upper(v), utf8_dash()) || has_window(ascii_upper(v), utf8_plain())
}

fn locale_of(env: &LocaleEnv) -> (r: Option<Vec<u8>>)
    ensures
        opt_bytes(r) == locale_value(*env),
{
    if let Some(v) = &env.lc_all {
        if v.len() > 0 {
            return Some(copy_bytes(v.as_slice()));
        }
    }
    if let Some(v) = &env.lc_ctype {
        if v.len() > 0 {
            return Some(copy_bytes(v.as_slice()));
        }
    }
    if let Some(v) = &env.lang {
        if v.len() > 0 {
            return Some(copy_bytes(v.as_slice()));
        }
    }
    None
}

fn is_utf8_locale(v: &[u8]) -> (r: bool)
    ensures
        r == mentions_utf8(v@),
{
    let upper = to_ascii_upper(v);
    let dash: Vec<u8> = vec![0x55, 0x54, 0x46, 0x2d, 0x38];
    let plain: Vec<u8> = vec![0x55, 0x54, 0x46, 0x38];
    find_window(upper.as_slice(), dash.as_slice()) || find_window(upper.as_slice(), plain.as_slice())
}

/// The charset NAME for XML's encoding= and HTML's meta tag: --charset,
/// else TREE_CHARSET, else "UTF-8" when the locale names UTF-8.
pub open spec fn spec_charset_name(charset: Option<Seq<u8>>, env: LocaleEnv) -> Option<Seq<u8>> {
    if charset is Some {
        charset
    } else if opt_bytes(env.tree_charset) is Some {
        opt_bytes(env.tree_charset)
    } else {
        match locale_value(env) {
            Some(v) => if mentions_utf8(v) { Some(utf8_dash()) } else { None },
            None => None,
        }
    }
}

/// The glyphs tree picks: -A first, then --charset, then TREE_CHARSET,
/// then the locale (UTF-8 or ASCII).
pub open spec fn select_glyphs(ansilines: bool, charset: Option<Seq<u8>>, env: LocaleEnv) -> Glyphs {
    if ansilines {
        Glyphs::Ansi
    } else {
        let explicit = if charset is Some { charset } else { opt_bytes(env.tree_charset) };
        match explicit {
            Some(n) => glyphs_named(n),
            None => match locale_value(env) {
                Some(v) => if mentions_utf8(v) { Glyphs::Utf8 } else { Glyphs::Ascii },
                None => Glyphs::Ascii,
            },
        }
    }
}

/// The charset name (for XML encoding= and the HTML meta tag):
/// --charset, TREE_CHARSET, or the locale's UTF-8.
pub fn charset_name(opts: &Options, env: &LocaleEnv) -> (r: Option<Vec<u8>>)
    ensures
        opt_bytes(r) == spec_charset_name(opt_bytes(opts.charset), *env),
{
    if let Some(name) = &opts.charset {
        return Some(copy_bytes(name.as_slice()));
    }
    if let Some(name) = &env.tree_charset {
        return Some(copy_bytes(name.as_slice()));
    }
    match locale_of(env) {
        Some(v) => if is_utf8_locale(v.as_slice()) {
            let u: Vec<u8> = vec![0x55, 0x54, 0x46, 0x2d, 0x38];
            Some(u)
        } else {
            None
        },
        None => None,
    }
}

/// The glyphs to draw with: -A wins over any charset, then --charset,
/// then TREE_CHARSET, then the locale.
pub fn select(opts: &Options, env: &LocaleEnv) -> (r: LineDraw)
    ensures
        r@ == glyphs_view(select_glyphs(opts.ansilines, opt_bytes(opts.charset), *env)),
{
    let g = if opts.ansilines {
        Glyphs::Ansi
    } else {
        let explicit: Option<&Vec<u8>> = match &opts.charset {
            Some(n) => Some(n),
            None => match &env.tree_charset {
                Some(n) => Some(n),
                None => None,
            },
        };
        match explicit {
            Some(n) => by_name(n.as_slice()),
            None => match locale_of(env) {
                Some(v) => if is_utf8_locale(v.as_slice()) { Glyphs::Utf8 } else { Glyphs::Ascii },
                None => Glyphs::Ascii,
            },
        }
    };
    LineDraw::of(g)
}

/// -A wins over any charset and any locale.
pub proof fn law_ansi_lines_win(charset: Option<Seq<u8>>, env: LocaleEnv)
    ensures
        select_glyphs(true, charset, env) == Glyphs::Ansi,
{
}

/// An explicit charset wins over the locale: --charset first, then
/// TREE_CHARSET.
pub proof fn law_charset_beats_locale(name: Seq<u8>, env: LocaleEnv)
    ensures
        select_glyphs(false, Some(name), env) == glyphs_named(name),
        spec_charset_name(Some(name), env) == Some(name),
{
}

/// Some spelling of UTF-8 that a locale name may hold: `UTF-8`, `utf-8`,
/// `UTF8` or `utf8`.
pub open spec fn utf8_spelling(w: Seq<u8>) -> bool {
    ||| w == seq![0x55u8, 0x54, 0x46, 0x2d, 0x38]
    ||| w == seq![0x75u8, 0x74, 0x66, 0x2d, 0x38]
    ||| w == seq![0x55u8, 0x54, 0x46, 0x38]
    ||| w == seq![0x75u8, 0x74, 0x66, 0x38]
}

proof fn lemma_mentions_utf8(p: Seq<u8>, w: Seq<u8>, q: Seq<u8>)
    requires
        utf8_spelling(w),
    ensures
        mentions_utf8(p + w + q),
{
    let s = p + w + q;
    let u = ascii_upper(s);
    let i = p.len() as int;
    let big = if w.len() == 5 { utf8_dash() } else { utf8_plain() };
    assert forall|k: int| 0 <= k < w.len() implies u[i + k] == big[k] by {
        assert(s[i + k] == w[k]);
    }
    assert(u.subrange(i, i + w.len()) =~= big);
}

/// Without -A and without an explicit charset, the locale decides: the
/// first of LC_ALL, LC_CTYPE and LANG that is set and not empty is read,
/// and one that names UTF-8 (as `UTF-8`, `utf-8`, `UTF8` or `utf8`,
/// anywhere in it) draws with UTF-8 lines and names the charset UTF-8.
pub proof fn law_utf8_locale_draws_utf8(p: Seq<u8>, w: Seq<u8>, q: Seq<u8>, env: LocaleEnv)
    requires
        utf8_spelling(w),
        opt_bytes(env.tree_charset) is None,
        locale_value(env) == Some(p + w + q),
    ensures
        select_glyphs(false, None, env) == Glyphs::Utf8,
        spec_charset_name(None, env) == Some(seq![0x55u8, 0x54, 0x46, 0x2d, 0x38]),
{
    lemma_mentions_utf8(p, w, q);
}

/// Which variable is read: LC_ALL when it is set and not empty, else
/// LC_CTYPE when it is, else LANG.
pub proof fn law_locale_precedence(env: LocaleEnv)
    ensures
        ({
            let a = opt_bytes(env.lc_all);
            let c = opt_bytes(env.lc_ctype);
            let l = opt_bytes(env.lang);
            let a_set = a is Some && a.unwrap().len() > 0;
            let c_set = c is Some && c.unwrap().len() > 0;
            let l_set = l is Some && l.unwrap().len() > 0;
            &&& a_set ==> locale_value(env) == a
            &&& !a_set && c_set ==> locale_value(env) == c
            &&& !a_set && !c_set && l_set ==> locale_value(env) == l
            &&& !a_set && !c_set && !l_set ==> locale_value(env) is None
        }),
{
}

/// A locale without UTF-8 in its name, such as `C`, draws ASCII lines
/// when it is the one read, whatever the variables after it say.
pub proof fn law_c_locale_draws_ascii(env: LocaleEnv)
    requires
        opt_bytes(env.tree_charset) is None,
        locale_value(env) == Some(seq![0x43u8]),
    ensures
        select_glyphs(false, None, env) == Glyphs::Ascii,
        spec_charset_name(None, env) is None,
{
    assert(!mentions_utf8(seq![0x43u8]));
}

} // verus!
