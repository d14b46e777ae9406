//! The extraction method dispatcher: which extractors a method identifier
//! runs, in which order, and how shell-item results are settled.
use vstd::prelude::*;

use crate::text::str_eq;
use crate::types::{well_formed_icon, ExtractError, IconData};

verus! {

/// The extraction methods that a caller can ask for.
#[derive(Clone, Copy, Debug, PartialEq, Eq, Structural)]
pub enum ExtractionMethod {
    /// The system image list first, then private high-resolution extraction.
    Smart,
    ImageList,
    PngBmp,
    PeResource,
    HighRes,
    Shell,
    Thumbnail,
    /// The platform icon-for-file call of the other OS family.
    Native,
    /// Decoding the `.icns` family of an application bundle.
    Icns,
}

/// The concrete strategies behind the methods; each makes one attempt.
#[derive(Clone, Copy, Debug, PartialEq, Eq, Structural)]
pub enum Extractor {
    SystemImageList,
    PrivateExtract,
    PngBmpResource,
    IconGroupResource,
    ShellFileInfo,
    ShellThumbnail,
    NativeIconForFile,
    IcnsFile,
}

/// One attempt: a strategy and the size it asks for (0 when it takes what
/// the source holds).
#[derive(Clone, Copy, Debug, PartialEq, Eq, Structural)]
pub struct ExtractionStep {
    pub extractor: Extractor,
    pub size: u32,
}

/// The method an identifier names.
pub open spec fn method_named(s: Seq<char>) -> Option<ExtractionMethod> {
    if s == "smart"@ {
        Some(ExtractionMethod::Smart)
    } else if s == "imagelist"@ {
        Some(ExtractionMethod::ImageList)
    } else if s == "png_bmp"@ {
        Some(ExtractionMethod::PngBmp)
    } else if s == "pe_resource"@ {
        Some(ExtractionMethod::PeResource)
    } else if s == "high_res"@ {
        Some(ExtractionMethod::HighRes)
    } else if s == "shell"@ {
        Some(ExtractionMethod::Shell)
    } else if s == "thumbnail"@ {
        Some(ExtractionMethod::Thumbnail)
    } else if s == "native"@ {
        Some(ExtractionMethod::Native)
    } else if s == "icns"@ {
        Some(ExtractionMethod::Icns)
    } else {
        None
    }
}

/// The attempts a method makes, in order. `Smart` makes exactly two; every
/// other method exactly one.
pub open spec fn steps_of(m: ExtractionMethod) -> Seq<ExtractionStep> {
    match m {
        ExtractionMethod::Smart => seq![
            ExtractionStep { extractor: Extractor::SystemImageList, size: 256 },
            ExtractionStep { extractor: Extractor::PrivateExtract, size: 512 },
        ],
        ExtractionMethod::ImageList => seq![
            ExtractionStep { extractor: Extractor::SystemImageList, size: 256 },
        ],
        ExtractionMethod::PngBmp => seq![
            ExtractionStep { extractor: Extractor::PngBmpResource, size: 0 },
        ],
        ExtractionMethod::PeResource => seq![
            ExtractionStep { extractor: Extractor::IconGroupResource, size: 0 },
        ],
        ExtractionMethod::HighRes => seq![
            ExtractionStep { extractor: Extractor::PrivateExtract, size: 512 },
        ],
        ExtractionMethod::Shell => seq![
            ExtractionStep { extractor: Extractor::ShellFileInfo, size: 512 },
        ],
        ExtractionMethod::Thumbnail => seq![
            ExtractionStep { extractor: Extractor::ShellThumbnail, size: 1024 },
        ],
        ExtractionMethod::Native => seq![
            ExtractionStep { extractor: Extractor::NativeIconForFile, size: 512 },
        ],
        ExtractionMethod::Icns => seq![ExtractionStep { extractor: Extractor::IcnsFile, size: 0 }],
    }
}

/// Reads a method identifier. An identifier outside the known set is an
/// error, never a silent default.
pub fn parse_method(method: &str) -> (r: Result<ExtractionMethod, ExtractError>)
    ensures
        match method_named(method@) {
            Some(m) => r == Ok::<ExtractionMethod, ExtractError>(m),
            None => r == Err::<ExtractionMethod, ExtractError>(ExtractError::UnsupportedMethod),
        },
{
    proof {
        reveal_strlit("smart");
        reveal_strlit("imagelist");
        reveal_strlit("png_bmp");
        reveal_strlit("pe_resource");
        reveal_strlit("high_res");
        reveal_strlit("shell");
        reveal_strlit("thumbnail");
        reveal_strlit("native");
        reveal_strlit("icns");
    }
    if str_eq(method, "smart") {
        Ok(ExtractionMethod::Smart)
    } else if str_eq(method, "imagelist") {
        Ok(ExtractionMethod::ImageList)
    } else if str_eq(method, "png_bmp") {
        Ok(ExtractionMethod::PngBmp)
    } else if str_eq(method, "pe_resource") {
        Ok(ExtractionMethod::PeResource)
    } else if str_eq(method, "high_res") {
        Ok(ExtractionMethod::HighRes)
    } else if str_eq(method, "shell") {
        Ok(ExtractionMethod::Shell)
    } else if str_eq(method, "thumbnail") {
        Ok(ExtractionMethod::Thumbnail)
    } else if str_eq(method, "native") {
        Ok(ExtractionMethod::Native)
    } else if str_eq(method, "icns") {
        Ok(ExtractionMethod::Icns)
    } else {
        Err(ExtractError::UnsupportedMethod)
    }
}

/// The attempts of a method, in order.
pub fn method_steps(m: ExtractionMethod) -> (r: Vec<ExtractionStep>)
    ensures
        r@ == steps_of(m),
{
    let mut v: Vec<ExtractionStep> = Vec::new();
    match m {
        ExtractionMethod::Smart => {
            v.push(ExtractionStep { extractor: Extractor::SystemImageList, size: 256 });
            v.push(ExtractionStep { extractor: Extractor::PrivateExtract, size: 512 });
        },
        ExtractionMethod::ImageList => {
            v.push(ExtractionStep { extractor: Extractor::SystemImageList, size: 256 });
        },
        ExtractionMethod::PngBmp => {
            v.push(ExtractionStep { extractor: Extractor::PngBmpResource, size: 0 });
        },
        ExtractionMethod::PeResource => {
            v.push(ExtractionStep { extractor: Extractor::IconGroupResource, size: 0 });
        },
        ExtractionMethod::HighRes => {
            v.push(ExtractionStep { extractor: Extractor::PrivateExtract, size: 512 });
        },
        ExtractionMethod::Shell => {
            v.push(ExtractionStep { extractor: Extractor::ShellFileInfo, size: 512 });
        },
        ExtractionMethod::Thumbnail => {
            v.push(ExtractionStep { extractor: Extractor::ShellThumbnail, size: 1024 });
        },
        ExtractionMethod::Native => {
            v.push(ExtractionStep { extractor: Extractor::NativeIconForFile, size: 512 });
        },
        ExtractionMethod::Icns => {
            v.push(ExtractionStep { extractor: Extractor::IcnsFile, size: 0 });
        },
    }
    assert(v@ =~= steps_of(m));
    v
}

/// The attempts that a method identifier asks for, or the unsupported-method
/// error.
pub fn extraction_steps(method: &str) -> (r: Result<Vec<ExtractionStep>, ExtractError>)
    ensures
        match method_named(method@) {
            Some(m) => (r matches Ok(v) && v@ == steps_of(m)),
            None => (r matches Err(e) && e == ExtractError::UnsupportedMethod),
        },
{
    match parse_method(method) {
        Ok(m) => Ok(method_steps(m)),
        Err(e) => Err(e),
    }
}

/// The method used when the caller names none: private high-resolution extraction.
pub fn default_method() -> (r: ExtractionMethod)
    ensures
        r == ExtractionMethod::HighRes,
{
    ExtractionMethod::HighRes
}

/// What to do after an attempt of a method.
#[derive(Clone, Copy, Debug, PartialEq, Eq, Structural)]
pub enum AttemptDecision {
    /// The attempt produced an image: it is the result.
    Accept,
    /// Make the next attempt of the method.
    TryNext,
    /// Every attempt failed: the extraction failed.
    GiveUp,
}

/// Decides after attempt number `made` (counting from 1) of a method that
/// makes `attempts`: an outcome with a payload is accepted; otherwise the next
/// attempt is made, and after the last one the extraction gives up. A method
/// never goes past its own attempts.
pub fn after_attempt(attempts: usize, made: usize, outcome: &Option<IconData>) -> (r:
    AttemptDecision)
    requires
        1 <= made <= attempts,
    ensures
        (outcome matches Some(d) && d.base64@.len() > 0) ==> r == AttemptDecision::Accept,
        !(outcome matches Some(d) && d.base64@.len() > 0) && made < attempts ==> r
            == AttemptDecision::TryNext,
        !(outcome matches Some(d) && d.base64@.len() > 0) && made == attempts ==> r
            == AttemptDecision::GiveUp,
{
    let produced = match outcome {
        Some(d) => !d.base64.as_str().is_empty(),
        None => false,
    };
    if produced {
        AttemptDecision::Accept
    } else if made < attempts {
        AttemptDecision::TryNext
    } else {
        AttemptDecision::GiveUp
    }
}

/// The smallest width that a shell-item thumbnail must reach to be kept.
pub const MIN_THUMBNAIL_WIDTH: u32 = 48;

/// A shell-item thumbnail that is empty or narrower than 48 pixels is worth
/// a second attempt through the shell's file icon.
pub fn needs_shell_fallback(thumbnail: &IconData) -> (r: bool)
    ensures
        r == (thumbnail.base64@.len() == 0 || thumbnail.width < 48),
{
    thumbnail.base64.as_str().is_empty() || thumbnail.width < MIN_THUMBNAIL_WIDTH
}

/// Settles a shell item: the shell's file icon replaces the thumbnail when the
/// thumbnail needed a fallback and the file icon is not empty.
pub fn settle_shell_item(thumbnail: IconData, shell: Option<IconData>) -> (r: IconData)
    ensures
        (thumbnail.base64@.len() == 0 || thumbnail.width < 48) && (shell matches Some(s)
            && s.base64@.len() > 0) ==> r == shell->Some_0,
        !((thumbnail.base64@.len() == 0 || thumbnail.width < 48) && (shell matches Some(s)
            && s.base64@.len() > 0)) ==> r == thumbnail,
        well_formed_icon(thumbnail) && (shell matches Some(s) ==> well_formed_icon(s))
            ==> well_formed_icon(r),
{
    if needs_shell_fallback(&thumbnail) {
        match shell {
            Some(s) => {
                if !s.base64.as_str().is_empty() {
                    return s;
                }
            },
            None => {},
        }
    }
    thumbnail
}

/// What a key whose extraction failed receives: an empty payload.
pub fn placeholder_icon() -> (r: IconData)
    ensures
        r.base64@.len() == 0,
        r.width == 32,
        r.height == 32,
        well_formed_icon(r),
{
    IconData { base64: String::new(), width: 32, height: 32 }
}

} // verus!
