//! Decisions made when reading transactions from assets: whether an asset
//! may be processed again, which steps a configuration runs, and how an
//! image is described to a vision model.

use vstd::prelude::*;
use crate::assets::Asset;
use crate::config::{Config, Extractor, Processor, ascii_lower, ascii_lowercase};
use crate::error::Error;
use crate::paths::{FsPath, spec_extension};
use crate::text::str_eq;

verus! {

/// Checks that an asset may be processed: one that already has a
/// transaction is processed again only when overwriting is allowed.
pub fn check_overwrite(asset: &Asset, overwrite: bool) -> (r: Result<(), Error>)
    ensures
        r is Ok <==> (asset@.transaction is None || overwrite),
        r matches Err(e) ==> e is AssetProcessed,
{
    let has_existing = asset.transaction().is_some();
    if has_existing && !overwrite {
        Err(Error::AssetProcessed)
    } else {
        Ok(())
    }
}

/// The steps that read a transaction from an asset.
#[derive(Clone, Copy, Debug, PartialEq, Eq, Structural)]
pub enum ProcessSteps {
    /// Ask the vision model for the transaction.
    Vision,
    /// Read the text with OCR, then ask the language model for the
    /// transaction.
    OcrThenLlm,
}

/// Whether a configuration names steps that exist: manual processing, and
/// OCR followed by anything but the language model, have none.
pub open spec fn has_steps(processor: Processor, extractor: Extractor) -> bool {
    match processor {
        Processor::Vision => true,
        Processor::OCR => extractor == Extractor::LLM,
        Processor::Manual => false,
    }
}

/// The steps a configuration runs.
pub fn process_steps(config: &Config) -> (r: ProcessSteps)
    requires
        has_steps(config.processor, config.extractor),
    ensures
        config.processor == Processor::Vision ==> r == ProcessSteps::Vision,
        config.processor == Processor::OCR ==> r == ProcessSteps::OcrThenLlm,
{
    match config.processor {
        Processor::Vision => ProcessSteps::Vision,
        _ => ProcessSteps::OcrThenLlm,
    }
}

/// Whether the processing a configuration asks for exists.
pub fn steps_exist(config: &Config) -> (r: bool)
    ensures
        r == has_steps(config.processor, config.extractor),
{
    match config.processor {
        Processor::Vision => true,
        Processor::OCR => config.extractor == Extractor::LLM,
        Processor::Manual => false,
    }
}

/// The image formats a vision model is told of.
#[derive(Clone, Copy, Debug, PartialEq, Eq, Structural)]
pub enum ImageMediaType {
    PNG,
    GIF,
    WEBP,
    HEIC,
    HEIF,
    JPEG,
}

/// The image format a (lowercased) file extension names.
pub open spec fn media_type_of(ext: Seq<char>) -> Option<ImageMediaType> {
    if ext == "png"@ {
        Some(ImageMediaType::PNG)
    } else if ext == "gif"@ {
        Some(ImageMediaType::GIF)
    } else if ext == "webp"@ {
        Some(ImageMediaType::WEBP)
    } else if ext == "heic"@ {
        Some(ImageMediaType::HEIC)
    } else if ext == "heif"@ {
        Some(ImageMediaType::HEIF)
    } else if ext == "jpg"@ || ext == "jpeg"@ {
        Some(ImageMediaType::JPEG)
    } else {
        None
    }
}

/// A file whose extension is `jpg` or `jpeg`, in any case of ASCII
/// letters, is a JPEG image, and the two spellings name the same type.
pub proof fn law_jpg_is_jpeg(p: Seq<Seq<char>>, e: Seq<char>)
    requires
        spec_extension(p) == Some(e),
        ascii_lower(e) == "jpg"@ || ascii_lower(e) == "jpeg"@,
    ensures
        media_type_of(lower_extension(p)) == Some(ImageMediaType::JPEG),
        media_type_of("jpg"@) == media_type_of("jpeg"@),
{
    reveal_strlit("png");
    reveal_strlit("gif");
    reveal_strlit("webp");
    reveal_strlit("heic");
    reveal_strlit("heif");
    reveal_strlit("jpg");
    reveal_strlit("jpeg");
    assert("jpg"@ != "png"@ && "jpg"@ != "gif"@ && "jpg"@ != "webp"@ && "jpg"@ != "heic"@ && "jpg"@
        != "heif"@) by {
        assert("jpg"@[0] != "png"@[0] && "jpg"@[0] != "gif"@[0] && "jpg"@[0] != "webp"@[0]);
        assert("jpg"@[0] != "heic"@[0] && "jpg"@[0] != "heif"@[0]);
    }
    assert("jpeg"@ != "png"@ && "jpeg"@ != "gif"@ && "jpeg"@ != "webp"@ && "jpeg"@ != "heic"@
        && "jpeg"@ != "heif"@) by {
        assert("jpeg"@[0] != "png"@[0] && "jpeg"@[0] != "gif"@[0] && "jpeg"@[0] != "webp"@[0]);
        assert("jpeg"@[0] != "heic"@[0] && "jpeg"@[0] != "heif"@[0]);
    }
}

/// Each image type has its extension: `png`, `gif`, `webp`, `heic`, `heif`,
/// and `jpg` or `jpeg`; every other extension names no image type.
pub proof fn law_media_type_by_extension(ext: Seq<char>)
    ensures
        media_type_of(ext) == Some(ImageMediaType::PNG) <==> ext == "png"@,
        media_type_of(ext) == Some(ImageMediaType::GIF) <==> ext == "gif"@,
        media_type_of(ext) == Some(ImageMediaType::WEBP) <==> ext == "webp"@,
        media_type_of(ext) == Some(ImageMediaType::HEIC) <==> ext == "heic"@,
        media_type_of(ext) == Some(ImageMediaType::HEIF) <==> ext == "heif"@,
        media_type_of(ext) == Some(ImageMediaType::JPEG) <==> (ext == "jpg"@ || ext == "jpeg"@),
        media_type_of(ext) is None <==> !(ext == "png"@ || ext == "gif"@ || ext == "webp"@ || ext
            == "heic"@ || ext == "heif"@ || ext == "jpg"@ || ext == "jpeg"@),
{
    reveal_strlit("png");
    reveal_strlit("gif");
    reveal_strlit("webp");
    reveal_strlit("heic");
    reveal_strlit("heif");
    reveal_strlit("jpg");
    reveal_strlit("jpeg");
    assert("png"@ != "gif"@ && "png"@ != "webp"@ && "png"@ != "heic"@ && "png"@ != "heif"@
        && "png"@ != "jpg"@ && "png"@ != "jpeg"@) by {
        assert("png"@[0] != "gif"@[0] && "png"@[0] != "webp"@[0] && "png"@[0] != "heic"@[0]);
        assert("png"@[0] != "heif"@[0] && "png"@[0] != "jpg"@[0] && "png"@[0] != "jpeg"@[0]);
    }
    assert("gif"@ != "webp"@ && "gif"@ != "heic"@ && "gif"@ != "heif"@ && "gif"@ != "jpg"@
        && "gif"@ != "jpeg"@) by {
        assert("gif"@[0] != "webp"@[0] && "gif"@[0] != "heic"@[0] && "gif"@[0] != "heif"@[0]);
        assert("gif"@[0] != "jpg"@[0] && "gif"@[0] != "jpeg"@[0]);
    }
    assert("webp"@ != "heic"@ && "webp"@ != "heif"@ && "webp"@ != "jpg"@ && "webp"@ != "jpeg"@) by {
        assert("webp"@[0] != "heic"@[0] && "webp"@[0] != "heif"@[0] && "webp"@[0] != "jpg"@[0]);
        assert("webp"@[0] != "jpeg"@[0]);
    }
    assert("heic"@ != "heif"@ && "heic"@ != "jpg"@ && "heic"@ != "jpeg"@) by {
        assert("heic"@[3] != "heif"@[3] && "heic"@[0] != "jpg"@[0] && "heic"@[0] != "jpeg"@[0]);
    }
    assert("heif"@ != "jpg"@ && "heif"@ != "jpeg"@) by {
        assert("heif"@[0] != "jpg"@[0] && "heif"@[0] != "jpeg"@[0]);
    }
}

/// The extension of a file, lowercased; empty when it has none. (For the
/// extensions compared against here, lowercasing all of Unicode and
/// lowercasing ASCII letters agree.)
pub open spec fn lower_extension(p: Seq<Seq<char>>) -> Seq<char> {
    match spec_extension(p) {
        Some(e) => ascii_lower(e),
        None => seq![],
    }
}

fn lower_ext(file: &FsPath) -> (r: String)
    ensures
        r@ == lower_extension(file@),
{
    match file.extension() {
        Some(e) => ascii_lowercase(e.as_str()),
        None => String::new(),
    }
}

/// The image format of a file, by its extension.
pub fn media_type(file: &FsPath) -> (r: Option<ImageMediaType>)
    ensures
        r == media_type_of(lower_extension(file@)),
{
    let ext = lower_ext(file);
    let e = ext.as_str();
    proof {
        reveal_strlit("png");
        reveal_strlit("gif");
        reveal_strlit("webp");
        reveal_strlit("heic");
        reveal_strlit("heif");
        reveal_strlit("jpg");
        reveal_strlit("jpeg");
    }
    if str_eq(e, "png") {
        Some(ImageMediaType::PNG)
    } else if str_eq(e, "gif") {
        Some(ImageMediaType::GIF)
    } else if str_eq(e, "webp") {
        Some(ImageMediaType::WEBP)
    } else if str_eq(e, "heic") {
        Some(ImageMediaType::HEIC)
    } else if str_eq(e, "heif") {
        Some(ImageMediaType::HEIF)
    } else if str_eq(e, "jpg") || str_eq(e, "jpeg") {
        Some(ImageMediaType::JPEG)
    } else {
        None
    }
}

/// Whether a file is a PDF, by its extension; such files are rasterized
/// before OCR.
pub fn is_pdf(file: &FsPath) -> (r: bool)
    ensures
        r == (lower_extension(file@) == "pdf"@),
{
    let ext = lower_ext(file);
    str_eq(ext.as_str(), "pdf")
}

} // verus!
