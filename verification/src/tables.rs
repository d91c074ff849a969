use vstd::prelude::*;
use crate::parse::Parse;

pub mod cmap;
pub mod font_directory;
pub mod glyf;
pub mod head;
pub mod hhea;
pub mod hmtx;
pub mod loca;
pub mod maxp;
pub mod os2;
pub mod vhea;
pub mod vmtx;

verus! {

/// How looking a table up can fail.
pub enum ParseTableErrorInner {
    TableNotFound,
}

/// A table that the directory addresses under a fixed four-byte tag.
pub trait PrimaryTable {
    /// The tag under which the table is filed.
    spec fn spec_tag() -> TableTag;

    fn tag() -> (r: TableTag)
        ensures
            r == Self::spec_tag(),
    ;
}

/// The known four-byte table identifiers.  A tag's code packs its four
/// ASCII bytes with the first byte in the lowest position.
#[derive(Debug, Clone, Copy, PartialEq, Eq, Structural)]
pub enum TableTag {
    /// `name`
    Name,
    /// `glyf`
    GlyphOutline,
    /// `cmap`
    CharacterCodeMapping,
    /// `post`
    PostScriptGlyphName,
    /// `head`
    FontHeader,
    /// `hmtx`
    HorizontalMetrics,
    /// `hhea`
    HorizontalHeader,
    /// `hdmx`
    HorizontalDeviceMetrics,
    /// `loca`
    GlyphLocation,
    /// `maxp`
    MaximumProfile,
    /// `OS/2`
    Compatibility,
    /// `acnt`
    AccentAttachment,
    /// `ankr`
    AnchorPoint,
    /// `avar`
    AxisVariation,
    /// `bdat`
    BitmapData,
    /// `bhed`
    BitmapFontHeader,
    /// `bloc`
    BitmapLocation,
    /// `bsln`
    AATBaseline,
    /// `cvar`
    CVTVariation,
    /// `fdsc`
    FontDescriptor,
    /// `feat`
    LayoutFeature,
    /// `fmtx`
    FontMetrics,
    /// `fond`
    FontFamilyCompat,
    /// `fvar`
    FontVariation,
    /// `gvar`
    GlyphVariation,
    /// `just`
    AATJustification,
    /// `kerx`
    ExtendedKerning,
    /// `lcar`
    LigatureCaret,
    /// `ltag`
    LanguageTag,
    /// `meta`
    Metadata,
    /// `mort`
    Metamorphosis,
    /// `morx`
    ExtendedMetamorphosis,
    /// `opbd`
    OpticalBounds,
    /// `prop`
    Properties,
    /// `sbix`
    ExtendedBitmaps,
    /// `trak`
    Tracking,
    /// `xref`
    CrossReference,
    /// `Zapf`
    GlyphReference,
    /// `GSUB`
    GlyphSubstitution,
    /// `GPOS`
    GlyphPositioning,
    /// `GDEF`
    GlyphDefinition,
    /// `BASE`
    Baseline,
    /// `JSTF`
    Justification,
    /// `Silf`
    Silf,
    /// `Glat`
    Glat,
    /// `Gloc`
    Gloc,
    /// `Feat`
    Feat,
    /// `FFTM`
    FFTimestamp,
    /// `kern`
    Kerning,
    /// `LTHS`
    LTHS,
    /// `vmtx`
    VerticalMetrics,
    /// `vhea`
    VerticalHeader,
    /// `VDMX`
    VDMX,
    /// `DSIG`
    DSIG,
    /// `PCLT`
    PCLT,
    /// `gasp`
    GridFitAndScanConv,
    /// `prep`
    ControlValueProgram,
    /// `fpgm`
    FontProgram,
    /// `cvt `
    ControlValue,
    /// `CFF `
    CompactFontFormat,
    /// `CFF2`
    CompactFontFormat2,
    /// `VORG`
    VORG,
    /// `EBDT`
    EBDT,
    /// `EBLC`
    EBLC,
    /// `EBSC`
    EmbeddedBitmapScalingControl,
    /// `MATH`
    MATH,
}

impl TableTag {
    /// The packed code of this tag.
    pub open spec fn spec_code(self) -> u32 {
        match self {
            TableTag::Name => 0x656d616e,
            TableTag::GlyphOutline => 0x66796c67,
            TableTag::CharacterCodeMapping => 0x70616d63,
            TableTag::PostScriptGlyphName => 0x74736f70,
            TableTag::FontHeader => 0x64616568,
            TableTag::HorizontalMetrics => 0x78746d68,
            TableTag::HorizontalHeader => 0x61656868,
            TableTag::HorizontalDeviceMetrics => 0x786d6468,
            TableTag::GlyphLocation => 0x61636f6c,
            TableTag::MaximumProfile => 0x7078616d,
            TableTag::Compatibility => 0x322f534f,
            TableTag::AccentAttachment => 0x746e6361,
            TableTag::AnchorPoint => 0x726b6e61,
            TableTag::AxisVariation => 0x72617661,
            TableTag::BitmapData => 0x74616462,
            TableTag::BitmapFontHeader => 0x64656862,
            TableTag::BitmapLocation => 0x636f6c62,
            TableTag::AATBaseline => 0x6e6c7362,
            TableTag::CVTVariation => 0x72617663,
            TableTag::FontDescriptor => 0x63736466,
            TableTag::LayoutFeature => 0x74616566,
            TableTag::FontMetrics => 0x78746d66,
            TableTag::FontFamilyCompat => 0x646e6f66,
            TableTag::FontVariation => 0x72617666,
            TableTag::GlyphVariation => 0x72617667,
            TableTag::AATJustification => 0x7473756a,
            TableTag::ExtendedKerning => 0x7872656b,
            TableTag::LigatureCaret => 0x7261636c,
            TableTag::LanguageTag => 0x6761746c,
            TableTag::Metadata => 0x6174656d,
            TableTag::Metamorphosis => 0x74726f6d,
            TableTag::ExtendedMetamorphosis => 0x78726f6d,
            TableTag::OpticalBounds => 0x6462706f,
            TableTag::Properties => 0x706f7270,
            TableTag::ExtendedBitmaps => 0x78696273,
            TableTag::Tracking => 0x6b617274,
            TableTag::CrossReference => 0x66657278,
            TableTag::GlyphReference => 0x6670615a,
            TableTag::GlyphSubstitution => 0x42555347,
            TableTag::GlyphPositioning => 0x534f5047,
            TableTag::GlyphDefinition => 0x46454447,
            TableTag::Baseline => 0x45534142,
            TableTag::Justification => 0x4654534a,
            TableTag::Silf => 0x666c6953,
            TableTag::Glat => 0x74616c47,
            TableTag::Gloc => 0x636f6c47,
            TableTag::Feat => 0x74616546,
            TableTag::FFTimestamp => 0x4d544646,
            TableTag::Kerning => 0x6e72656b,
            TableTag::LTHS => 0x5348544c,
            TableTag::VerticalMetrics => 0x78746d76,
            TableTag::VerticalHeader => 0x61656876,
            TableTag::VDMX => 0x584d4456,
            TableTag::DSIG => 0x47495344,
            TableTag::PCLT => 0x544c4350,
            TableTag::GridFitAndScanConv => 0x70736167,
            TableTag::ControlValueProgram => 0x70657270,
            TableTag::FontProgram => 0x6d677066,
            TableTag::ControlValue => 0x20747663,
            TableTag::CompactFontFormat => 0x20464643,
            TableTag::CompactFontFormat2 => 0x32464643,
            TableTag::VORG => 0x47524f56,
            TableTag::EBDT => 0x54444245,
            TableTag::EBLC => 0x434c4245,
            TableTag::EmbeddedBitmapScalingControl => 0x43534245,
            TableTag::MATH => 0x4854414d,
        }
    }

    /// The tag with the given packed code, if any.
    #[verifier::opaque]
    pub open spec fn spec_from_code(v: u32) -> Option<TableTag> {
        if false {
            None
        } else if v == 0x656d616e {
            Some(TableTag::Name)
        } else if v == 0x66796c67 {
            Some(TableTag::GlyphOutline)
        } else if v == 0x70616d63 {
            Some(TableTag::CharacterCodeMapping)
        } else if v == 0x74736f70 {
            Some(TableTag::PostScriptGlyphName)
        } else if v == 0x64616568 {
            Some(TableTag::FontHeader)
        } else if v == 0x78746d68 {
            Some(TableTag::HorizontalMetrics)
        } else if v == 0x61656868 {
            Some(TableTag::HorizontalHeader)
        } else if v == 0x786d6468 {
            Some(TableTag::HorizontalDeviceMetrics)
        } else if v == 0x61636f6c {
            Some(TableTag::GlyphLocation)
        } else if v == 0x7078616d {
            Some(TableTag::MaximumProfile)
        } else if v == 0x322f534f {
            Some(TableTag::Compatibility)
        } else if v == 0x746e6361 {
            Some(TableTag::AccentAttachment)
        } else if v == 0x726b6e61 {
            Some(TableTag::AnchorPoint)
        } else if v == 0x72617661 {
            Some(TableTag::AxisVariation)
        } else if v == 0x74616462 {
            Some(TableTag::BitmapData)
        } else if v == 0x64656862 {
            Some(TableTag::BitmapFontHeader)
        } else if v == 0x636f6c62 {
            Some(TableTag::BitmapLocation)
        } else if v == 0x6e6c7362 {
            Some(TableTag::AATBaseline)
        } else if v == 0x72617663 {
            Some(TableTag::CVTVariation)
        } else if v == 0x63736466 {
            Some(TableTag::FontDescriptor)
        } else if v == 0x74616566 {
            Some(TableTag::LayoutFeature)
        } else if v == 0x78746d66 {
            Some(TableTag::FontMetrics)
        } else if v == 0x646e6f66 {
            Some(TableTag::FontFamilyCompat)
        } else if v == 0x72617666 {
            Some(TableTag::FontVariation)
        } else if v == 0x72617667 {
            Some(TableTag::GlyphVariation)
        } else if v == 0x7473756a {
            Some(TableTag::AATJustification)
        } else if v == 0x7872656b {
            Some(TableTag::ExtendedKerning)
        } else if v == 0x7261636c {
            Some(TableTag::LigatureCaret)
        } else if v == 0x6761746c {
            Some(TableTag::LanguageTag)
        } else if v == 0x6174656d {
            Some(TableTag::Metadata)
        } else if v == 0x74726f6d {
            Some(TableTag::Metamorphosis)
        } else if v == 0x78726f6d {
            Some(TableTag::ExtendedMetamorphosis)
        } else if v == 0x6462706f {
            Some(TableTag::OpticalBounds)
        } else if v == 0x706f7270 {
            Some(TableTag::Properties)
        } else if v == 0x78696273 {
            Some(TableTag::ExtendedBitmaps)
        } else if v == 0x6b617274 {
            Some(TableTag::Tracking)
        } else if v == 0x66657278 {
            Some(TableTag::CrossReference)
        } else if v == 0x6670615a {
            Some(TableTag::GlyphReference)
        } else if v == 0x42555347 {
            Some(TableTag::GlyphSubstitution)
        } else if v == 0x534f5047 {
            Some(TableTag::GlyphPositioning)
        } else if v == 0x46454447 {
            Some(TableTag::GlyphDefinition)
        } else if v == 0x45534142 {
            Some(TableTag::Baseline)
        } else if v == 0x4654534a {
            Some(TableTag::Justification)
        } else if v == 0x666c6953 {
            Some(TableTag::Silf)
        } else if v == 0x74616c47 {
            Some(TableTag::Glat)
        } else if v == 0x636f6c47 {
            Some(TableTag::Gloc)
        } else if v == 0x74616546 {
            Some(TableTag::Feat)
        } else if v == 0x4d544646 {
            Some(TableTag::FFTimestamp)
        } else if v == 0x6e72656b {
            Some(TableTag::Kerning)
        } else if v == 0x5348544c {
            Some(TableTag::LTHS)
        } else if v == 0x78746d76 {
            Some(TableTag::VerticalMetrics)
        } else if v == 0x61656876 {
            Some(TableTag::VerticalHeader)
        } else if v == 0x584d4456 {
            Some(TableTag::VDMX)
        } else if v == 0x47495344 {
            Some(TableTag::DSIG)
        } else if v == 0x544c4350 {
            Some(TableTag::PCLT)
        } else if v == 0x70736167 {
            Some(TableTag::GridFitAndScanConv)
        } else if v == 0x70657270 {
            Some(TableTag::ControlValueProgram)
        } else if v == 0x6d677066 {
            Some(TableTag::FontProgram)
        } else if v == 0x20747663 {
            Some(TableTag::ControlValue)
        } else if v == 0x20464643 {
            Some(TableTag::CompactFontFormat)
        } else if v == 0x32464643 {
            Some(TableTag::CompactFontFormat2)
        } else if v == 0x47524f56 {
            Some(TableTag::VORG)
        } else if v == 0x54444245 {
            Some(TableTag::EBDT)
        } else if v == 0x434c4245 {
            Some(TableTag::EBLC)
        } else if v == 0x43534245 {
            Some(TableTag::EmbeddedBitmapScalingControl)
        } else if v == 0x4854414d {
            Some(TableTag::MATH)
        } else {
            None
        }
    }

    pub fn from_code(v: u32) -> (r: Option<TableTag>)
        ensures
            r == TableTag::spec_from_code(v),
    {
        proof {
            reveal(TableTag::spec_from_code);
        }
        if false {
            None
        } else if v == 0x656d616e {
            Some(TableTag::Name)
        } else if v == 0x66796c67 {
            Some(TableTag::GlyphOutline)
        } else if v == 0x70616d63 {
            Some(TableTag::CharacterCodeMapping)
        } else if v == 0x74736f70 {
            Some(TableTag::PostScriptGlyphName)
        } else if v == 0x64616568 {
            Some(TableTag::FontHeader)
        } else if v == 0x78746d68 {
            Some(TableTag::HorizontalMetrics)
        } else if v == 0x61656868 {
            Some(TableTag::HorizontalHeader)
        } else if v == 0x786d6468 {
            Some(TableTag::HorizontalDeviceMetrics)
        } else if v == 0x61636f6c {
            Some(TableTag::GlyphLocation)
        } else if v == 0x7078616d {
            Some(TableTag::MaximumProfile)
        } else if v == 0x322f534f {
            Some(TableTag::Compatibility)
        } else if v == 0x746e6361 {
            Some(TableTag::AccentAttachment)
        } else if v == 0x726b6e61 {
            Some(TableTag::AnchorPoint)
        } else if v == 0x72617661 {
            Some(TableTag::AxisVariation)
        } else if v == 0x74616462 {
            Some(TableTag::BitmapData)
        } else if v == 0x64656862 {
            Some(TableTag::BitmapFontHeader)
        } else if v == 0x636f6c62 {
            Some(TableTag::BitmapLocation)
        } else if v == 0x6e6c7362 {
            Some(TableTag::AATBaseline)
        } else if v == 0x72617663 {
            Some(TableTag::CVTVariation)
        } else if v == 0x63736466 {
            Some(TableTag::FontDescriptor)
        } else if v == 0x74616566 {
            Some(TableTag::LayoutFeature)
        } else if v == 0x78746d66 {
            Some(TableTag::FontMetrics)
        } else if v == 0x646e6f66 {
            Some(TableTag::FontFamilyCompat)
        } else if v == 0x72617666 {
            Some(TableTag::FontVariation)
        } else if v == 0x72617667 {
            Some(TableTag::GlyphVariation)
        } else if v == 0x7473756a {
            Some(TableTag::AATJustification)
        } else if v == 0x7872656b {
            Some(TableTag::ExtendedKerning)
        } else if v == 0x7261636c {
            Some(TableTag::LigatureCaret)
        } else if v == 0x6761746c {
            Some(TableTag::LanguageTag)
        } else if v == 0x6174656d {
            Some(TableTag::Metadata)
        } else if v == 0x74726f6d {
            Some(TableTag::Metamorphosis)
        } else if v == 0x78726f6d {
            Some(TableTag::ExtendedMetamorphosis)
        } else if v == 0x6462706f {
            Some(TableTag::OpticalBounds)
        } else if v == 0x706f7270 {
            Some(TableTag::Properties)
        } else if v == 0x78696273 {
            Some(TableTag::ExtendedBitmaps)
        } else if v == 0x6b617274 {
            Some(TableTag::Tracking)
        } else if v == 0x66657278 {
            Some(TableTag::CrossReference)
        } else if v == 0x6670615a {
            Some(TableTag::GlyphReference)
        } else if v == 0x42555347 {
            Some(TableTag::GlyphSubstitution)
        } else if v == 0x534f5047 {
            Some(TableTag::GlyphPositioning)
        } else if v == 0x46454447 {
            Some(TableTag::GlyphDefinition)
        } else if v == 0x45534142 {
            Some(TableTag::Baseline)
        } else if v == 0x4654534a {
            Some(TableTag::Justification)
        } else if v == 0x666c6953 {
            Some(TableTag::Silf)
        } else if v == 0x74616c47 {
            Some(TableTag::Glat)
        } else if v == 0x636f6c47 {
            Some(TableTag::Gloc)
        } else if v == 0x74616546 {
            Some(TableTag::Feat)
        } else if v == 0x4d544646 {
            Some(TableTag::FFTimestamp)
        } else if v == 0x6e72656b {
            Some(TableTag::Kerning)
        } else if v == 0x5348544c {
            Some(TableTag::LTHS)
        } else if v == 0x78746d76 {
            Some(TableTag::VerticalMetrics)
        } else if v == 0x61656876 {
            Some(TableTag::VerticalHeader)
        } else if v == 0x584d4456 {
            Some(TableTag::VDMX)
        } else if v == 0x47495344 {
            Some(TableTag::DSIG)
        } else if v == 0x544c4350 {
            Some(TableTag::PCLT)
        } else if v == 0x70736167 {
            Some(TableTag::GridFitAndScanConv)
        } else if v == 0x70657270 {
            Some(TableTag::ControlValueProgram)
        } else if v == 0x6d677066 {
            Some(TableTag::FontProgram)
        } else if v == 0x20747663 {
            Some(TableTag::ControlValue)
        } else if v == 0x20464643 {
            Some(TableTag::CompactFontFormat)
        } else if v == 0x32464643 {
            Some(TableTag::CompactFontFormat2)
        } else if v == 0x47524f56 {
            Some(TableTag::VORG)
        } else if v == 0x54444245 {
            Some(TableTag::EBDT)
        } else if v == 0x434c4245 {
            Some(TableTag::EBLC)
        } else if v == 0x43534245 {
            Some(TableTag::EmbeddedBitmapScalingControl)
        } else if v == 0x4854414d {
            Some(TableTag::MATH)
        } else {
            None
        }
    }
}

/// Walks a run of contiguous fixed-size records, at most `num_left` of them.
pub struct RecordIterator<'file, T: Parse> {
    pub next_record: &'file [u8],
    pub num_left: u16,
    pub _marker: core::marker::PhantomData<T>,
}

impl<'file, T: Parse> RecordIterator<'file, T> {
    /// Bytes not yet walked.
    pub open spec fn bytes(self) -> Seq<u8> {
        self.next_record@
    }

    /// Yield the next record, or `None` when the count is exhausted or the
    /// bytes run out.
    pub fn next(&mut self) -> (r: Option<T>)
        ensures
            old(self).num_left == 0 || old(self).bytes().len() < T::spec_size() ==> r is None
                && *final(self) == *old(self),
            old(self).num_left > 0 && old(self).bytes().len() >= T::spec_size() ==> {
                &&& r is Some
                &&& T::parsed(old(self).bytes(), r.unwrap())
                &&& final(self).bytes() == old(self).bytes().skip(T::spec_size() as int)
                &&& final(self).num_left == old(self).num_left - 1
            },
    {
        if self.num_left < 1 {
            return None;
        }
        let size = T::approx_file_size();
        if self.next_record.len() < size {
            return None;
        }
        let (next_record, record) = T::parse(self.next_record);
        self.num_left = self.num_left - 1;
        self.next_record = next_record;
        Some(record)
    }
}

} // verus!
