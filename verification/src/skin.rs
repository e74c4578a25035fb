//! Photo skins: which photos are taken, how they are brought to one form, and how they are
//! shown.
use image::{DynamicImage, ImageFormat, ImageReader};
use vstd::prelude::*;

use crate::encoding::{
    encode_standard, lemma_standard_text_distinct, padded_count, standard_text,
};
use crate::text::{append_text, joined};

verus! {

/// The largest photo that is taken, in bytes.
pub const MAX_SOURCE_BYTES: u64 = 10_485_760;

/// The longest edge of a photo that is taken, in pixels.
pub const MAX_IMAGE_EDGE: u32 = 4096;

/// The most pixels that a photo may have to be taken.
pub const MAX_IMAGE_PIXELS: u64 = 16_000_000;

/// The most memory that reading a photo may take, in bytes.
pub const MAX_DECODE_ALLOC: u64 = 100_663_296;

/// The longest edge of a stored photo, in pixels.
pub const NORMALIZED_IMAGE_EDGE: u32 = 2048;

/// The largest photo that is stored, in bytes.
pub const MAX_STORED_BYTES: u64 = 12_582_912;

/// The quality with which photos are stored, of one hundred.
pub const STORED_QUALITY: u8 = 88;

/// The formats in which a photo is taken.
#[derive(Debug, Clone, Copy, PartialEq, Eq, Structural)]
pub enum PhotoFormat {
    Png,
    Jpeg,
    WebP,
}

/// What the first bytes of a file say of its format: nothing, that it is a picture in a format
/// that is not taken, or the format.
#[derive(Debug, Clone, Copy, PartialEq, Eq, Structural)]
pub enum FormatGuess {
    Unknown,
    Unsupported,
    Photo(PhotoFormat),
}

/// The first bytes of a PNG file.
pub open spec fn starts_as_png(bytes: Seq<u8>) -> bool {
    seq![0x89u8, 0x50, 0x4E, 0x47, 0x0D, 0x0A, 0x1A, 0x0A].is_prefix_of(bytes)
}

/// The first bytes of a JPEG file.
pub open spec fn starts_as_jpeg(bytes: Seq<u8>) -> bool {
    seq![0xFFu8, 0xD8, 0xFF].is_prefix_of(bytes)
}

/// The first bytes of a WebP file: two marks around a length.
pub open spec fn starts_as_webp(bytes: Seq<u8>) -> bool {
    &&& bytes.len() >= 12
    &&& bytes.subrange(0, 4) == seq![0x52u8, 0x49, 0x46, 0x46]
    &&& bytes.subrange(8, 12) == seq![0x57u8, 0x45, 0x42, 0x50]
}

/// Whether `image::guess_format` takes bytes for a picture in a format other than PNG, JPEG
/// and WebP.
pub uninterp spec fn starts_as_other(bytes: Seq<u8>) -> bool;

/// What the first bytes of a file say of its format.
pub open spec fn guess_of(bytes: Seq<u8>) -> FormatGuess {
    if starts_as_png(bytes) {
        FormatGuess::Photo(PhotoFormat::Png)
    } else if starts_as_jpeg(bytes) {
        FormatGuess::Photo(PhotoFormat::Jpeg)
    } else if starts_as_webp(bytes) {
        FormatGuess::Photo(PhotoFormat::WebP)
    } else if starts_as_other(bytes) {
        FormatGuess::Unsupported
    } else {
        FormatGuess::Unknown
    }
}

/// `image::guess_format`: the format whose mark the bytes begin with, and an error where they
/// begin with none. Bytes that fit the mark of PNG, JPEG or WebP fit no other mark.
#[verifier::external_body]
fn guess_format(bytes: &[u8]) -> (guess: FormatGuess)
    ensures
        guess == FormatGuess::Photo(PhotoFormat::Png) <==> starts_as_png(bytes@),
        guess == FormatGuess::Photo(PhotoFormat::Jpeg) <==> starts_as_jpeg(bytes@),
        guess == FormatGuess::Photo(PhotoFormat::WebP) <==> starts_as_webp(bytes@),
        guess == FormatGuess::Unsupported <==> starts_as_other(bytes@),
{
    match image::guess_format(bytes) {
        Ok(ImageFormat::Png) => FormatGuess::Photo(PhotoFormat::Png),
        Ok(ImageFormat::Jpeg) => FormatGuess::Photo(PhotoFormat::Jpeg),
        Ok(ImageFormat::WebP) => FormatGuess::Photo(PhotoFormat::WebP),
        Ok(_) => FormatGuess::Unsupported,
        Err(_) => FormatGuess::Unknown,
    }
}

/// A picture of `image`, with its pixels.
#[verifier::external_type_specification]
#[verifier::external_body]
pub struct ExDynamicImage(DynamicImage);

/// How wide and how high a `DynamicImage` is, in pixels.
pub uninterp spec fn image_size(image: DynamicImage) -> (u32, u32);

/// What `ImageReader::into_dimensions` reads from bytes in a format: width and height, or the
/// text of its error.
pub uninterp spec fn photo_size(bytes: Seq<u8>, format: PhotoFormat) -> Result<
    (u32, u32),
    Seq<char>,
>;

/// Whether `outcome` is one that `ImageReader::decode` comes to for bytes in a format, where
/// neither edge may be longer than `max_edge` and reading may take `max_alloc` bytes of memory:
/// a picture, or the text of its error. Decoders compute differently on different machines, so
/// there may be more than one.
pub uninterp spec fn decodes_to(
    bytes: Seq<u8>,
    format: PhotoFormat,
    max_edge: u32,
    max_alloc: u64,
    outcome: Result<DynamicImage, Seq<char>>,
) -> bool;

/// Whether `resized` is a picture that `DynamicImage::resize` makes of another with the filter
/// `Lanczos3`, for these bounds. The filter computes with rounding that depends on the machine,
/// so there may be more than one.
pub uninterp spec fn resizes_to(
    image: DynamicImage,
    width: u32,
    height: u32,
    resized: DynamicImage,
) -> bool;

/// The bytes that `JpegEncoder::encode_image` makes of the colours of a picture, as
/// `DynamicImage::to_rgb8` gives them, with this quality. Both compute with integers, and with
/// quotients whose rounding leaves no choice.
pub uninterp spec fn jpeg_form(image: DynamicImage, quality: u8) -> Seq<u8>;

/// A size or a text in place of it, as plain values.
pub open spec fn size_or_text(result: Result<(u32, u32), String>) -> Result<
    (u32, u32),
    Seq<char>,
> {
    match result {
        Ok(size) => Ok(size),
        Err(text) => Err(text@),
    }
}

/// A picture or a text in place of it.
pub open spec fn image_or_text(result: Result<DynamicImage, String>) -> Result<
    DynamicImage,
    Seq<char>,
> {
    match result {
        Ok(image) => Ok(image),
        Err(text) => Err(text@),
    }
}

/// `ImageReader::into_dimensions` of a reader for the format: the size that the head of the
/// file gives, and the text of the error where it gives none.
#[verifier::external_body]
fn read_size(bytes: &[u8], format: PhotoFormat) -> (result: Result<(u32, u32), String>)
    ensures
        size_or_text(result) == photo_size(bytes@, format),
{
    let codec = match format {
        PhotoFormat::Png => ImageFormat::Png,
        PhotoFormat::Jpeg => ImageFormat::Jpeg,
        PhotoFormat::WebP => ImageFormat::WebP,
    };
    ImageReader::with_format(std::io::Cursor::new(bytes), codec)
        .into_dimensions()
        .map_err(|error| error.to_string())
}

/// `ImageReader::decode` of a reader for the format, with these limits: the picture, as large
/// as the head of the file says, or the text of the error. It refuses a picture with an edge
/// that is longer than allowed. Reading the size alone is held to a limit of 512 MiB of memory,
/// so no more is allowed here.
#[verifier::external_body]
fn decode_photo(bytes: &[u8], format: PhotoFormat, max_edge: u32, max_alloc: u64) -> (result:
    Result<DynamicImage, String>)
    requires
        max_alloc <= 536_870_912,
    ensures
        decodes_to(bytes@, format, max_edge, max_alloc, image_or_text(result)),
        result is Ok ==> photo_size(bytes@, format) is Ok,
        result is Ok ==> image_size(result->Ok_0) == photo_size(bytes@, format)->Ok_0,
        result is Ok ==> image_size(result->Ok_0).0 <= max_edge,
        result is Ok ==> image_size(result->Ok_0).1 <= max_edge,
{
    let codec = match format {
        PhotoFormat::Png => ImageFormat::Png,
        PhotoFormat::Jpeg => ImageFormat::Jpeg,
        PhotoFormat::WebP => ImageFormat::WebP,
    };
    let mut limits = image::Limits::default();
    limits.max_image_width = Some(max_edge);
    limits.max_image_height = Some(max_edge);
    limits.max_alloc = Some(max_alloc);
    let mut reader = ImageReader::with_format(std::io::Cursor::new(bytes), codec);
    reader.limits(limits);
    reader.decode().map_err(|error| error.to_string())
}

/// Whether a picture of the size `to` is one of the size `from` in the same proportions, up to
/// the rounding of its shorter edge, and as large as fits within the bounds.
pub open spec fn fitted_size(from: (u32, u32), to: (u32, u32), width: u32, height: u32) -> bool {
    let skew = to.0 * from.1 - to.1 * from.0;
    let longer = if from.0 >= from.1 {
        from.0
    } else {
        from.1
    };
    &&& 1 <= to.0 <= width
    &&& 1 <= to.1 <= height
    &&& to.0 == width || to.1 == height
    &&& -longer <= skew <= longer
}

/// `DynamicImage::resize` with the filter `Lanczos3`: the picture as large as fits within the
/// bounds, in the same proportions. It panics where there is no memory for as many pixels, so
/// the edges are bounded.
#[verifier::external_body]
fn resize_photo(image: &DynamicImage, width: u32, height: u32) -> (resized: DynamicImage)
    requires
        1 <= width <= 8192,
        1 <= height <= 8192,
        1 <= image_size(*image).0 <= 8192,
        1 <= image_size(*image).1 <= 8192,
    ensures
        resizes_to(*image, width, height, resized),
        fitted_size(image_size(*image), image_size(resized), width, height),
{
    image.resize(width, height, image::imageops::FilterType::Lanczos3)
}

/// The sizes that a JPEG file can hold.
pub open spec fn is_jpeg_size(size: (u32, u32)) -> bool {
    1 <= size.0 <= 65535 && 1 <= size.1 <= 65535
}

/// `JpegEncoder::encode_image` on `DynamicImage::to_rgb8`: a JPEG file, or the text of the
/// error for a size that the format cannot hold.
#[verifier::external_body]
fn encode_photo(image: &DynamicImage, quality: u8) -> (result: Result<Vec<u8>, String>)
    ensures
        result is Ok <==> is_jpeg_size(image_size(*image)),
        result is Ok ==> result->Ok_0@ == jpeg_form(*image, quality),
        result is Ok ==> starts_as_jpeg(result->Ok_0@),
{
    let mut encoded = Vec::new();
    image::codecs::jpeg::JpegEncoder::new_with_quality(&mut encoded, quality)
        .encode_image(&image.to_rgb8())
        .map_err(|error| error.to_string())?;
    Ok(encoded)
}

/// The format of a photo that is taken, given what its first bytes say.
pub fn check_format(guess: FormatGuess) -> (result: Result<PhotoFormat, String>)
    ensures
        match guess {
            FormatGuess::Photo(format) => result == Ok::<PhotoFormat, String>(format),
            FormatGuess::Unsupported => result is Err && result->Err_0@ == unsupported_text(),
            FormatGuess::Unknown => result is Err && result->Err_0@ == unknown_text(),
        },
{
    match guess {
        FormatGuess::Photo(format) => Ok(format),
        FormatGuess::Unsupported => Err("仅支持 PNG、JPG、WEBP 图片".to_owned()),
        FormatGuess::Unknown => Err("无法识别图片格式".to_owned()),
    }
}

/// What is told of a picture in a format that is not taken.
pub open spec fn unsupported_text() -> Seq<char> {
    "仅支持 PNG、JPG、WEBP 图片"@
}

/// What is told of a file that is no picture.
pub open spec fn unknown_text() -> Seq<char> {
    "无法识别图片格式"@
}

/// The sizes of photos that are taken.
pub open spec fn is_allowed_size(width: u32, height: u32) -> bool {
    &&& 1 <= width <= MAX_IMAGE_EDGE
    &&& 1 <= height <= MAX_IMAGE_EDGE
    &&& width * height <= MAX_IMAGE_PIXELS
}

/// What is told of a photo whose size is not allowed.
pub open spec fn size_text() -> Seq<char> {
    "照片尺寸不能超过 4096×4096 或 1600 万像素"@
}

/// Whether a photo of this size is taken.
pub fn check_size(width: u32, height: u32) -> (result: Result<(), String>)
    ensures
        result is Ok <==> is_allowed_size(width, height),
        result is Ok <==> 1 <= width <= MAX_IMAGE_EDGE && 1 <= height <= MAX_IMAGE_EDGE && width
            * height <= MAX_IMAGE_PIXELS,
        result is Ok <==> 1 <= width <= 4096 && 1 <= height <= 4096 && width * height <= 16_000_000,
        result matches Err(message) ==> message@ == size_text() && message@
            == "照片尺寸不能超过 4096×4096 或 1600 万像素"@,
{
    assert(width * height <= u32::MAX * u32::MAX) by (nonlinear_arith)
        requires
            0 <= width <= u32::MAX,
            0 <= height <= u32::MAX,
    ;
    let pixels: u64 = width as u64 * height as u64;
    if width == 0 || height == 0 || width > MAX_IMAGE_EDGE || height > MAX_IMAGE_EDGE || pixels
        > MAX_IMAGE_PIXELS {
        Err("照片尺寸不能超过 4096×4096 或 1600 万像素".to_owned())
    } else {
        Ok(())
    }
}

/// Why a photo is not taken, given its size or what is told in place of it.
pub open spec fn size_refusal(size: Result<(u32, u32), Seq<char>>) -> Option<Seq<char>> {
    match size {
        Err(error) => Some("无法读取图片尺寸："@ + error),
        Ok((width, height)) => if is_allowed_size(width, height) {
            None
        } else {
            Some(size_text())
        },
    }
}

/// The size of a photo that is taken, given what was read as its size.
pub fn check_read_size(read: Result<(u32, u32), String>) -> (result: Result<(u32, u32), String>)
    ensures
        match size_refusal(size_or_text(read)) {
            Some(text) => result is Err && result->Err_0@ == text,
            None => result == read,
        },
        result is Ok <==> (read matches Ok((w, h)) && 1 <= w <= 4096 && 1 <= h <= 4096 && w * h
            <= 16_000_000),
        result is Ok ==> result == read,
        read matches Err(error) ==> result is Err && result->Err_0@ == "无法读取图片尺寸："@ + error@,
        read is Ok && result is Err ==> result->Err_0@
            == "照片尺寸不能超过 4096×4096 或 1600 万像素"@,
{
    match read {
        Ok((width, height)) => match check_size(width, height) {
            Ok(()) => Ok((width, height)),
            Err(message) => Err(message),
        },
        Err(error) => Err(joined("无法读取图片尺寸：", error.as_str())),
    }
}

/// What is told of a photo that cannot be decoded, given the text of the decoder's error.
pub open spec fn broken_text(error: Seq<char>) -> Seq<char> {
    "照片已损坏或无法解码："@ + error
}

/// What is told of a photo that cannot be decoded.
pub fn broken_message(error: &str) -> (message: String)
    ensures
        message@ == broken_text(error@),
{
    joined("照片已损坏或无法解码：", error)
}

/// The sizes of photos that are made smaller before they are stored.
pub open spec fn is_oversized(width: u32, height: u32) -> bool {
    width > NORMALIZED_IMAGE_EDGE || height > NORMALIZED_IMAGE_EDGE
}

/// Whether an encoded photo is stored.
pub fn check_encoded(encoded: Vec<u8>) -> (result: Result<Vec<u8>, String>)
    ensures
        match result {
            Ok(stored) => stored == encoded && encoded@.len() <= MAX_STORED_BYTES,
            Err(message) => encoded@.len() > MAX_STORED_BYTES && message@ == too_large_text(),
        },
        result is Ok <==> encoded@.len() <= 12 * 1024 * 1024,
        result matches Ok(stored) ==> stored@ == encoded@,
        result matches Err(message) ==> message@ == "处理后的照片仍然过大"@,
{
    if encoded.len() as u64 > MAX_STORED_BYTES {
        Err("处理后的照片仍然过大".to_owned())
    } else {
        Ok(encoded)
    }
}

/// What is told of a photo that is too large even in its stored form.
pub open spec fn too_large_text() -> Seq<char> {
    "处理后的照片仍然过大"@
}

/// Why a photo is not taken, as far as its head shows.
pub open spec fn refusal(bytes: Seq<u8>) -> Option<Seq<char>> {
    match guess_of(bytes) {
        FormatGuess::Unknown => Some(unknown_text()),
        FormatGuess::Unsupported => Some(unsupported_text()),
        FormatGuess::Photo(format) => size_refusal(photo_size(bytes, format)),
    }
}

/// Whether reading a photo comes to `outcome`: the format is the one that its first bytes show,
/// and a picture that is read is as large as the photo says.
pub open spec fn reads_as(bytes: Seq<u8>, outcome: Result<DynamicImage, Seq<char>>) -> bool {
    &&& guess_of(bytes) is Photo
    &&& decodes_to(bytes, guess_of(bytes)->Photo_0, MAX_IMAGE_EDGE, MAX_DECODE_ALLOC, outcome)
    &&& outcome matches Ok(image) ==> photo_size(bytes, guess_of(bytes)->Photo_0) == Ok::<
        (u32, u32),
        Seq<char>,
    >(image_size(image))
}

/// Whether `shown` is what is stored of a picture: the picture itself, or a smaller one in its
/// place where it is oversized.
pub open spec fn is_shown(image: DynamicImage, shown: DynamicImage) -> bool {
    if is_oversized(image_size(image).0, image_size(image).1) {
        &&& resizes_to(image, NORMALIZED_IMAGE_EDGE, NORMALIZED_IMAGE_EDGE, shown)
        &&& fitted_size(
            image_size(image),
            image_size(shown),
            NORMALIZED_IMAGE_EDGE,
            NORMALIZED_IMAGE_EDGE,
        )
    } else {
        shown == image
    }
}

/// Whether `encoded` is the form in which a picture is stored: the picture or the smaller one in
/// its place, no larger than stored photos are, as a JPEG file.
pub open spec fn stored_as(image: DynamicImage, encoded: Seq<u8>) -> bool {
    exists|shown: DynamicImage|
        {
            &&& #[trigger] is_shown(image, shown)
            &&& image_size(shown).0 <= NORMALIZED_IMAGE_EDGE
            &&& image_size(shown).1 <= NORMALIZED_IMAGE_EDGE
            &&& encoded == jpeg_form(shown, STORED_QUALITY)
            &&& starts_as_jpeg(encoded)
        }
}

/// Whether `encoded` is the form in which a photo is stored: that of the picture read from it.
pub open spec fn normalizes_to(bytes: Seq<u8>, encoded: Seq<u8>) -> bool {
    exists|image: DynamicImage|
        {
            &&& #[trigger] reads_as(bytes, Ok(image))
            &&& photo_size(bytes, guess_of(bytes)->Photo_0) == Ok::<(u32, u32), Seq<char>>(
                image_size(image),
            )
            &&& stored_as(image, encoded)
        }
}

/// Brings a photo to the form in which it is stored, or says why it is not taken. Which photos
/// can be decoded, once their size is known and allowed, is left to the decoder.
pub fn normalize_image(bytes: &[u8]) -> (result: Result<Vec<u8>, String>)
    ensures
        match refusal(bytes@) {
            Some(text) => result is Err && result->Err_0@ == text,
            None => match result {
                Ok(stored) => normalizes_to(bytes@, stored@) && stored@.len() <= MAX_STORED_BYTES,
                Err(message) => {
                    ||| exists|error: Seq<char>|
                        #[trigger] reads_as(bytes@, Err(error)) && message@ == broken_text(error)
                    ||| exists|encoded: Seq<u8>|
                        #[trigger] normalizes_to(bytes@, encoded) && encoded.len()
                            > MAX_STORED_BYTES && message@ == too_large_text()
                },
            },
        },
{
    let format: PhotoFormat = match check_format(guess_format(bytes)) {
        Ok(format) => format,
        Err(message) => {
            return Err(message);
        },
    };
    assert(guess_of(bytes@) == FormatGuess::Photo(format));
    let (width, height) = match check_read_size(read_size(bytes, format)) {
        Ok(size) => size,
        Err(message) => {
            return Err(message);
        },
    };
    let image: DynamicImage = match decode_photo(bytes, format, MAX_IMAGE_EDGE, MAX_DECODE_ALLOC) {
        Ok(image) => image,
        Err(error) => {
            assert(reads_as(bytes@, Err(error@)));
            return Err(broken_message(error.as_str()));
        },
    };
    assert(reads_as(bytes@, Ok(image)));
    let ghost decoded: DynamicImage = image;
    let shown: DynamicImage = if width > NORMALIZED_IMAGE_EDGE || height > NORMALIZED_IMAGE_EDGE {
        resize_photo(&image, NORMALIZED_IMAGE_EDGE, NORMALIZED_IMAGE_EDGE)
    } else {
        image
    };
    assert(is_shown(decoded, shown));
    match encode_photo(&shown, STORED_QUALITY) {
        Ok(encoded) => {
            assert(stored_as(decoded, encoded@));
            assert(normalizes_to(bytes@, encoded@));
            check_encoded(encoded)
        },
        Err(error) => Err(joined("无法转换照片：", error.as_str())),
    }
}

/// Whether a chosen file is read as a photo: a plain file that is neither empty nor too large.
pub fn check_source_file(is_file: bool, length: u64) -> (result: Result<(), String>)
    ensures
        result is Ok <==> is_file && 0 < length <= MAX_SOURCE_BYTES,
        result is Ok <==> is_file && 0 < length <= 10 * 1024 * 1024,
        result matches Err(message) ==> message@ == if is_file {
            "照片需小于 10 MB"@
        } else {
            "请选择一个普通图片文件"@
        },
{
    if !is_file {
        Err("请选择一个普通图片文件".to_owned())
    } else if length == 0 || length > MAX_SOURCE_BYTES {
        Err("照片需小于 10 MB".to_owned())
    } else {
        Ok(())
    }
}

/// The stored files that are shown: plain files that are neither empty nor too large.
pub open spec fn is_stored_file(is_file: bool, length: nat) -> bool {
    is_file && 0 < length <= MAX_STORED_BYTES
}

/// Whether a stored photo is shown.
pub fn check_stored_file(is_file: bool, length: u64) -> (result: Result<(), String>)
    ensures
        result is Ok <==> is_stored_file(is_file, length as nat),
        result is Ok <==> is_file && 0 < length <= 12 * 1024 * 1024,
        result matches Err(message) ==> message@ == "已保存的照片皮肤无效"@,
{
    if !is_file || length == 0 || length > MAX_STORED_BYTES {
        Err("已保存的照片皮肤无效".to_owned())
    } else {
        Ok(())
    }
}

/// The address under which a stored photo is shown: all of it, as text.
pub open spec fn data_url(bytes: Seq<u8>) -> Seq<char> {
    "data:image/jpeg;base64,"@ + standard_text(bytes)
}

/// The address under which a stored photo is shown.
pub fn skin_data_url(bytes: &[u8]) -> (url: String)
    requires
        padded_count(bytes@.len()) <= isize::MAX,
    ensures
        url@ == data_url(bytes@),
        url@ == "data:image/jpeg;base64,"@ + standard_text(bytes@),
{
    let mut url: String = "data:image/jpeg;base64,".to_owned();
    append_text(&mut url, encode_standard(bytes).as_str());
    url
}

/// The size that a stored photo has, given the size that the photo says it has: the same, or the
/// largest in the same proportions that fits where an edge is too long.
pub open spec fn is_stored_size(declared: (u32, u32), stored: (u32, u32)) -> bool {
    if is_oversized(declared.0, declared.1) {
        fitted_size(declared, stored, NORMALIZED_IMAGE_EDGE, NORMALIZED_IMAGE_EDGE)
    } else {
        stored == declared
    }
}

/// What is stored of a photo is a JPEG file of a picture that is as large as the photo says, or
/// the largest that fits in the same proportions where an edge is too long.
pub proof fn law_stored_photo_keeps_its_size(bytes: Seq<u8>, encoded: Seq<u8>)
    requires
        normalizes_to(bytes, encoded),
    ensures
        guess_of(bytes) is Photo,
        photo_size(bytes, guess_of(bytes)->Photo_0) is Ok,
        starts_as_jpeg(encoded),
        exists|shown: DynamicImage|
            encoded == #[trigger] jpeg_form(shown, STORED_QUALITY) && is_stored_size(
                photo_size(bytes, guess_of(bytes)->Photo_0)->Ok_0,
                image_size(shown),
            ),
{
    let image: DynamicImage = choose|image: DynamicImage|
        #[trigger] reads_as(bytes, Ok(image)) && stored_as(image, encoded);
    let shown: DynamicImage = choose|shown: DynamicImage|
        #[trigger] is_shown(image, shown) && encoded == jpeg_form(shown, STORED_QUALITY);
    assert(encoded == jpeg_form(shown, STORED_QUALITY));
}

/// Only the picture is stored: photos that read as the same picture, however they are compressed
/// and whatever else they hold, are stored in the same forms, and in one and the same form where
/// the picture is not made smaller.
pub proof fn law_only_the_picture_is_stored(
    a: Seq<u8>,
    b: Seq<u8>,
    image: DynamicImage,
    encoded: Seq<u8>,
)
    requires
        reads_as(a, Ok(image)),
        reads_as(b, Ok(image)),
        stored_as(image, encoded),
    ensures
        normalizes_to(a, encoded),
        normalizes_to(b, encoded),
        !is_oversized(image_size(image).0, image_size(image).1) ==> encoded == jpeg_form(
            image,
            STORED_QUALITY,
        ),
{
}

/// Photos that read alike are stored alike: nothing of a photo but what it reads as decides what
/// is stored of it.
pub proof fn law_photos_that_read_alike_are_stored_alike(a: Seq<u8>, b: Seq<u8>, encoded: Seq<u8>)
    requires
        forall|image: DynamicImage|
            #[trigger] reads_as(a, Ok(image)) <==> reads_as(b, Ok(image)),
    ensures
        normalizes_to(a, encoded) <==> normalizes_to(b, encoded),
{
    if normalizes_to(a, encoded) {
        let image: DynamicImage = choose|image: DynamicImage|
            #[trigger] reads_as(a, Ok(image)) && stored_as(image, encoded);
        assert(reads_as(b, Ok(image)));
    }
    if normalizes_to(b, encoded) {
        let image: DynamicImage = choose|image: DynamicImage|
            #[trigger] reads_as(b, Ok(image)) && stored_as(image, encoded);
        assert(reads_as(a, Ok(image)));
    }
}

/// What was brought to the stored form and is not too large is shown when it is read again,
/// and it fits the address.
pub proof fn law_normalized_photo_is_shown(bytes: Seq<u8>, stored: Seq<u8>)
    requires
        normalizes_to(bytes, stored),
        stored.len() <= MAX_STORED_BYTES,
    ensures
        is_stored_file(true, stored.len()),
        padded_count(stored.len()) <= isize::MAX,
{
}

/// The address of a photo holds all of it: photos with the same address are the same.
pub proof fn law_data_url_holds_the_photo(a: Seq<u8>, b: Seq<u8>)
    requires
        data_url(a) == data_url(b),
    ensures
        a == b,
{
    let start: Seq<char> = "data:image/jpeg;base64,"@;
    let n: int = start.len() as int;
    assert(data_url(a).skip(n) == standard_text(a));
    assert(data_url(b).skip(n) == standard_text(b));
    lemma_standard_text_distinct(a, b);
}

/// A photo is taken by its size just where both edges are at most 4096 pixels, there are at most
/// sixteen million of them and at least one; so a photo is taken upright where it is taken on its
/// side, and so is each smaller one that is not empty.
pub proof fn law_photos_are_taken_by_size(width: u32, height: u32, w: u32, h: u32)
    ensures
        is_allowed_size(width, height) <==> 1 <= width <= 4096 && 1 <= height <= 4096 && width
            * height <= 16_000_000,
        is_allowed_size(width, height) <==> is_allowed_size(height, width),
        is_allowed_size(width, height) && 1 <= w <= width && 1 <= h <= height ==> is_allowed_size(
            w,
            h,
        ),
{
    assert(width * height == height * width) by (nonlinear_arith);
    if 1 <= w <= width && 1 <= h <= height {
        assert(w * h <= width * height) by (nonlinear_arith)
            requires
                0 <= w <= width,
                0 <= h <= height,
        ;
    }
}

/// Why a photo is refused before it is decoded: it is no picture, it is one in a format that is not
/// taken, its size cannot be read, or its size is not allowed; for nothing else.
pub proof fn law_photos_are_refused_by_format_and_size(bytes: Seq<u8>)
    ensures
        (match guess_of(bytes) {
            FormatGuess::Unknown => refusal(bytes) == Some("无法识别图片格式"@),
            FormatGuess::Unsupported => refusal(bytes) == Some("仅支持 PNG、JPG、WEBP 图片"@),
            FormatGuess::Photo(format) => match photo_size(bytes, format) {
                Err(error) => refusal(bytes) == Some("无法读取图片尺寸："@ + error),
                Ok((w, h)) => {
                    &&& 1 <= w <= 4096 && 1 <= h <= 4096 && w * h <= 16_000_000 ==> refusal(
                        bytes,
                    ) is None
                    &&& !(1 <= w <= 4096 && 1 <= h <= 4096 && w * h <= 16_000_000) ==> refusal(
                        bytes,
                    ) == Some("照片尺寸不能超过 4096×4096 或 1600 万像素"@)
                },
            },
        }),
        unknown_text() == "无法识别图片格式"@,
        unsupported_text() == "仅支持 PNG、JPG、WEBP 图片"@,
        size_text() == "照片尺寸不能超过 4096×4096 或 1600 万像素"@,
        too_large_text() == "处理后的照片仍然过大"@,
        forall|error: Seq<char>| #[trigger]
            broken_text(error) == "照片已损坏或无法解码："@ + error,
{
}

/// The format of a photo shows in its first bytes: each of the three formats has its own.
pub proof fn law_formats_show_in_the_first_bytes(bytes: Seq<u8>)
    ensures
        bytes.len() >= 8 && bytes[0] == 0x89 && bytes[1] == 0x50 && bytes[2] == 0x4E && bytes[3]
            == 0x47 && bytes[4] == 0x0D && bytes[5] == 0x0A && bytes[6] == 0x1A && bytes[7] == 0x0A
            <==> guess_of(bytes) == FormatGuess::Photo(PhotoFormat::Png),
        bytes.len() >= 3 && bytes[0] == 0xFF && bytes[1] == 0xD8 && bytes[2] == 0xFF <==> guess_of(
            bytes,
        ) == FormatGuess::Photo(PhotoFormat::Jpeg),
        bytes.len() >= 12 && bytes[0] == 0x52 && bytes[1] == 0x49 && bytes[2] == 0x46 && bytes[3]
            == 0x46 && bytes[8] == 0x57 && bytes[9] == 0x45 && bytes[10] == 0x42 && bytes[11]
            == 0x50 <==> guess_of(bytes) == FormatGuess::Photo(PhotoFormat::WebP),
{
    let png: Seq<u8> = seq![0x89u8, 0x50, 0x4E, 0x47, 0x0D, 0x0A, 0x1A, 0x0A];
    let jpeg: Seq<u8> = seq![0xFFu8, 0xD8, 0xFF];
    if bytes.len() >= 8 {
        let start: Seq<u8> = bytes.subrange(0, 8);
        assert(start[0] == bytes[0] && start[1] == bytes[1] && start[2] == bytes[2] && start[3]
            == bytes[3] && start[4] == bytes[4] && start[5] == bytes[5] && start[6] == bytes[6]
            && start[7] == bytes[7]);
        assert(png.is_prefix_of(bytes) <==> png =~= start);
    }
    if bytes.len() >= 3 {
        let start: Seq<u8> = bytes.subrange(0, 3);
        assert(start[0] == bytes[0] && start[1] == bytes[1] && start[2] == bytes[2]);
        assert(jpeg.is_prefix_of(bytes) <==> jpeg =~= start);
    }
    if bytes.len() >= 12 {
        let first: Seq<u8> = bytes.subrange(0, 4);
        let last: Seq<u8> = bytes.subrange(8, 12);
        assert(first[0] == bytes[0] && first[1] == bytes[1] && first[2] == bytes[2] && first[3]
            == bytes[3]);
        assert(last[0] == bytes[8] && last[1] == bytes[9] && last[2] == bytes[10] && last[3]
            == bytes[11]);
        assert(first == seq![0x52u8, 0x49, 0x46, 0x46] <==> first =~= seq![
            0x52u8,
            0x49,
            0x46,
            0x46,
        ]);
        assert(last == seq![0x57u8, 0x45, 0x42, 0x50] <==> last =~= seq![
            0x57u8,
            0x45,
            0x42,
            0x50,
        ]);
    }
}

/// A picture is stored as it is where neither edge is longer than 2048 pixels, and otherwise as what
/// `DynamicImage::resize` makes of it within 2048 by 2048; always as a JPEG file of quality 88 of a
/// picture with edges of at most 2048 pixels. It is decoded from the whole photo, within 4096 pixels
/// an edge and 96 MiB of memory.
pub proof fn law_pictures_are_stored_within_bounds(
    bytes: Seq<u8>,
    image: DynamicImage,
    shown: DynamicImage,
    encoded: Seq<u8>,
)
    ensures
        image_size(image).0 <= 2048 && image_size(image).1 <= 2048 ==> (is_shown(image, shown)
            <==> shown == image),
        image_size(image).0 > 2048 || image_size(image).1 > 2048 ==> (is_shown(image, shown)
            <==> resizes_to(image, 2048, 2048, shown) && fitted_size(
            image_size(image),
            image_size(shown),
            2048,
            2048,
        )),
        stored_as(image, encoded) ==> exists|kept: DynamicImage| #[trigger]
            is_shown(image, kept) && encoded == jpeg_form(kept, 88) && image_size(kept).0 <= 2048
                && image_size(kept).1 <= 2048 && encoded.len() >= 3,
        is_shown(image, shown) && image_size(shown).0 <= 2048 && image_size(shown).1 <= 2048
            && starts_as_jpeg(jpeg_form(shown, 88)) ==> stored_as(image, jpeg_form(shown, 88)),
        reads_as(bytes, Ok(image)) <==> {
            &&& guess_of(bytes) is Photo
            &&& decodes_to(bytes, guess_of(bytes)->Photo_0, 4096, 100_663_296, Ok(image))
            &&& photo_size(bytes, guess_of(bytes)->Photo_0) == Ok::<(u32, u32), Seq<char>>(
                image_size(image),
            )
        },
        normalizes_to(bytes, encoded) <==> exists|picture: DynamicImage| #[trigger]
            reads_as(bytes, Ok(picture)) && stored_as(picture, encoded),
{
    if normalizes_to(bytes, encoded) {
        let picture: DynamicImage = choose|picture: DynamicImage| #[trigger]
            reads_as(bytes, Ok(picture)) && stored_as(picture, encoded);
        assert(reads_as(bytes, Ok(picture)) && stored_as(picture, encoded));
    }
}

/// A picture that was made smaller fits the bounds, meets one of them, and keeps the proportions of
/// its edges up to less than a pixel of the longer one.
pub proof fn law_smaller_pictures_keep_their_proportions(
    from: (u32, u32),
    to: (u32, u32),
    width: u32,
    height: u32,
)
    requires
        fitted_size(from, to, width, height),
    ensures
        1 <= to.0 <= width,
        1 <= to.1 <= height,
        to.0 == width || to.1 == height,
        to.0 * from.1 - to.1 * from.0 <= from.0 || to.0 * from.1 - to.1 * from.0 <= from.1,
        to.1 * from.0 - to.0 * from.1 <= from.0 || to.1 * from.0 - to.0 * from.1 <= from.1,
{
}

/// What reading comes to is kept as it is: a size or a picture, or the text of an error.
pub proof fn law_outcomes_are_kept(
    size: Result<(u32, u32), String>,
    image: Result<DynamicImage, String>,
)
    ensures
        size matches Ok(found) ==> size_or_text(size) == Ok::<(u32, u32), Seq<char>>(found),
        size matches Err(error) ==> size_or_text(size) == Err::<(u32, u32), Seq<char>>(error@),
        image matches Ok(found) ==> image_or_text(image) == Ok::<DynamicImage, Seq<char>>(found),
        image matches Err(error) ==> image_or_text(image) == Err::<DynamicImage, Seq<char>>(error@),
{
}

} // verus!
