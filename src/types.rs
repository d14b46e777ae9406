use vstd::prelude::*;

use crate::codec::{lower_of, lowercase};
use crate::text::chars_of;

verus! {

/// An extracted icon: a data-URI encoded image with its dimensions.
/// An empty payload means that no icon is available.
#[derive(Clone, Debug)]
pub struct IconData {
    pub base64: String,
    pub width: u32,
    pub height: u32,
}

/// A payload comes with a positive width and height, or is empty.
pub open spec fn well_formed_icon(d: IconData) -> bool {
    d.base64@.len() > 0 ==> d.width > 0 && d.height > 0
}

/// A decoded image held as tightly packed RGBA bytes, row after row.
#[derive(Clone, Debug)]
pub struct RgbaImage {
    pub width: u32,
    pub height: u32,
    pub data: Vec<u8>,
}

impl RgbaImage {
    /// The byte buffer holds exactly four bytes per pixel.
    pub open spec fn wf(&self) -> bool {
        self.data@.len() == 4 * (self.width as int) * (self.height as int)
    }
}

/// Why an extraction or a parse could not produce a result.
#[derive(Clone, Copy, Debug, PartialEq, Eq, Structural)]
pub enum ExtractError {
    /// The requested extraction method is not one of the known identifiers.
    UnsupportedMethod,
    /// The requested image format is not one of the known formats.
    UnsupportedFormat,
    /// The pixel buffer is smaller than its stated dimensions require.
    InvalidImageBuffer,
    /// The image library could not decode the bytes.
    DecodeFailed,
    /// The image library could not encode the pixels.
    EncodeFailed,
    /// The data is shorter than its header.
    TooShort,
    /// The data does not start with the expected signature.
    BadSignature,
    /// A header field does not hold the expected value.
    BadHeader,
    /// The icon group holds no entries.
    EmptyGroup,
    /// No strategy produced an image.
    ExtractionFailed,
    /// The image has no pixels: its width or height is zero.
    EmptyImage,
}

} // verus!

verus! {

/// The still-image formats that the image codec is asked to decode.
#[derive(Clone, Copy, Debug, PartialEq, Eq, Structural)]
pub enum ImageFormatKind {
    Png,
    Bmp,
    Jpeg,
    Ico,
}

} // verus!

verus! {

/// One discovered application entry.
#[derive(Clone, Debug)]
pub struct DesktopIcon {
    pub name: String,
    /// The payload as a data URI; empty until an icon is attached.
    pub icon_base64: String,
    pub target_path: String,
    pub file_path: String,
    pub icon_width: u32,
    pub icon_height: u32,
    pub icon_source_path: Option<String>,
    pub icon_source_index: Option<i32>,
    pub created_time: Option<String>,
    pub modified_time: Option<String>,
    pub accessed_time: Option<String>,
    pub file_size: Option<u64>,
    pub file_type: Option<String>,
    pub description: Option<String>,
    pub arguments: Option<String>,
    pub working_directory: Option<String>,
    pub hotkey: Option<String>,
    pub show_command: Option<String>,
    /// Which scanner produced the entry.
    pub source_name: Option<String>,
}

/// A record together with the priority of the scanner that produced it.
#[derive(Clone, Debug)]
pub struct RankedIcon {
    pub icon: DesktopIcon,
    pub priority: i32,
}

} // verus!

verus! {

/// The text begins with the given prefix.
pub open spec fn starts_with(s: Seq<char>, prefix: Seq<char>) -> bool {
    prefix.len() <= s.len() && s.subrange(0, prefix.len() as int) == prefix
}

fn has_prefix(s: &Vec<char>, prefix: &str) -> (r: bool)
    ensures
        r == starts_with(s@, prefix@),
{
    let n = prefix.unicode_len();
    if n > s.len() {
        return false;
    }
    let mut i: usize = 0;
    while i < n
        invariant
            n == prefix@.len(),
            n <= s@.len(),
            i <= n,
            s@.subrange(0, i as int) == prefix@.subrange(0, i as int),
        decreases n - i,
    {
        if s[i] != prefix.get_char(i) {
            assert(s@.subrange(0, n as int)[i as int] != prefix@[i as int]);
            return false;
        }
        assert(s@.subrange(0, i + 1) =~= s@.subrange(0, i as int).push(s@[i as int]));
        assert(prefix@.subrange(0, i + 1) =~= prefix@.subrange(0, i as int).push(prefix@[i as int]));
        i = i + 1;
    }
    assert(prefix@.subrange(0, n as int) =~= prefix@);
    true
}

/// Whether a path is a web address: it starts with `http://` or `https://`,
/// ignoring case.
pub fn is_url(path: &str) -> (r: bool)
    ensures
        r == (starts_with(lower_of(path@), "http://"@) || starts_with(lower_of(path@), "https://"@)),
{
    let lower = lowercase(path);
    let chars = chars_of(lower.as_str());
    has_prefix(&chars, "http://") || has_prefix(&chars, "https://")
}

/// A record's payload comes with a positive width and height, or is empty.
pub open spec fn well_formed_record(r: DesktopIcon) -> bool {
    r.icon_base64@.len() > 0 ==> r.icon_width > 0 && r.icon_height > 0
}

/// Whether a payload comes with a positive width and height, or is empty.
pub fn is_well_formed_icon(d: &IconData) -> (r: bool)
    ensures
        r == well_formed_icon(*d),
{
    d.base64.as_str().is_empty() || (d.width > 0 && d.height > 0)
}

} // verus!
