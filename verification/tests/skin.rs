use std::io::Cursor;

use image::{DynamicImage, ImageFormat};
use local_quota_widget::skin::{
    broken_message, check_encoded, check_format, check_read_size, check_size, check_source_file,
    check_stored_file, normalize_image, skin_data_url, FormatGuess, PhotoFormat, MAX_SOURCE_BYTES,
    MAX_STORED_BYTES,
};

fn picture(width: u32, height: u32, format: ImageFormat) -> Vec<u8> {
    let mut output = Cursor::new(Vec::new());
    DynamicImage::new_rgb8(width, height)
        .write_to(&mut output, format)
        .expect("test picture should encode");
    output.into_inner()
}

fn small_png() -> Vec<u8> {
    picture(12, 8, ImageFormat::Png)
}

fn size_of(encoded: &[u8]) -> (u32, u32) {
    let image = image::load_from_memory_with_format(encoded, ImageFormat::Jpeg)
        .expect("a stored photo decodes");
    (image.width(), image.height())
}

#[test]
fn normalizes_supported_image_to_metadata_free_jpeg() {
    let encoded = normalize_image(&small_png()).expect("valid PNG should normalize");
    assert!(encoded.starts_with(&[0xff, 0xd8, 0xff]));
    assert!(encoded.len() < MAX_STORED_BYTES as usize);
}

#[test]
fn rejects_unknown_or_broken_images() {
    assert!(normalize_image(b"not an image").is_err());
}

#[test]
fn every_supported_format_is_taken() {
    for format in [ImageFormat::Png, ImageFormat::Jpeg, ImageFormat::WebP] {
        let encoded = normalize_image(&picture(12, 8, format)).expect("a photo");
        assert_eq!(size_of(&encoded), (12, 8));
    }
}

#[test]
fn the_stored_form_is_that_of_the_encoder() {
    let image = DynamicImage::new_rgb8(12, 8);
    let mut expected = Vec::new();
    image::codecs::jpeg::JpegEncoder::new_with_quality(&mut expected, 88)
        .encode_image(&image.to_rgb8())
        .expect("test picture should encode");
    assert_eq!(normalize_image(&small_png()).expect("a photo"), expected);
}

#[test]
fn large_photos_are_made_smaller() {
    let wide = normalize_image(&picture(3000, 30, ImageFormat::Png)).expect("a photo");
    assert_eq!(size_of(&wide), (2048, 20));
    let high = normalize_image(&picture(1, 2049, ImageFormat::Png)).expect("a photo");
    assert_eq!(size_of(&high), (1, 2048));
    let fitting = normalize_image(&picture(2048, 2, ImageFormat::Png)).expect("a photo");
    assert_eq!(size_of(&fitting), (2048, 2));
}

#[test]
fn refused_photos_are_told_why() {
    let told = |bytes: &[u8]| normalize_image(bytes).unwrap_err();
    assert_eq!(told(b""), "无法识别图片格式");
    assert_eq!(told(b"not an image"), "无法识别图片格式");
    assert_eq!(told(b"GIF89a......"), "仅支持 PNG、JPG、WEBP 图片");
    assert_eq!(told(b"BM..........."), "仅支持 PNG、JPG、WEBP 图片");
    assert!(told(b"\x89PNG\r\n\x1a\n").starts_with("无法读取图片尺寸："));
    assert!(told(b"\xff\xd8\xff").starts_with("无法读取图片尺寸："));
    assert!(told(b"RIFF\0\0\0\0WEBP").starts_with("无法读取图片尺寸："));
    assert_eq!(
        told(&picture(4097, 1, ImageFormat::Png)),
        "照片尺寸不能超过 4096×4096 或 1600 万像素"
    );
    let mut cut = picture(200, 200, ImageFormat::Jpeg);
    let head = small_png();
    assert!(normalize_image(&head[..head.len() - 20])
        .unwrap_err()
        .starts_with("照片已损坏或无法解码："));
    cut.truncate(3);
    assert!(told(&cut).starts_with("无法读取图片尺寸："));
}

#[test]
fn sizes_are_bounded_by_edge_and_by_area() {
    let told = "照片尺寸不能超过 4096×4096 或 1600 万像素";
    assert!(check_size(1, 1).is_ok());
    assert!(check_size(4096, 3906).is_ok());
    assert!(check_size(4000, 4000).is_ok());
    assert_eq!(check_size(4096, 3907).unwrap_err(), told);
    assert_eq!(check_size(4096, 4096).unwrap_err(), told);
    assert_eq!(check_size(4097, 1).unwrap_err(), told);
    assert_eq!(check_size(1, 4097).unwrap_err(), told);
    assert_eq!(check_size(0, 5).unwrap_err(), told);
    assert_eq!(check_size(5, 0).unwrap_err(), told);
    assert_eq!(check_size(u32::MAX, u32::MAX).unwrap_err(), told);
}

#[test]
fn encoded_photos_are_bounded() {
    let limit = MAX_STORED_BYTES as usize;
    assert_eq!(check_encoded(vec![1, 2]).unwrap(), vec![1, 2]);
    assert!(check_encoded(vec![0; limit]).is_ok());
    assert_eq!(
        check_encoded(vec![0; limit + 1]).unwrap_err(),
        "处理后的照片仍然过大"
    );
}

#[test]
fn chosen_files_are_checked() {
    assert!(check_source_file(true, 1).is_ok());
    assert!(check_source_file(true, MAX_SOURCE_BYTES).is_ok());
    assert_eq!(
        check_source_file(true, MAX_SOURCE_BYTES + 1).unwrap_err(),
        "照片需小于 10 MB"
    );
    assert_eq!(check_source_file(true, 0).unwrap_err(), "照片需小于 10 MB");
    assert_eq!(
        check_source_file(false, 0).unwrap_err(),
        "请选择一个普通图片文件"
    );
}

#[test]
fn stored_files_are_checked() {
    let told = "已保存的照片皮肤无效";
    assert!(check_stored_file(true, MAX_STORED_BYTES).is_ok());
    assert_eq!(check_stored_file(true, 0).unwrap_err(), told);
    assert_eq!(check_stored_file(true, MAX_STORED_BYTES + 1).unwrap_err(), told);
    assert_eq!(check_stored_file(false, 5).unwrap_err(), told);
}

#[test]
fn a_normalized_photo_passes_the_check_of_stored_files() {
    let encoded = normalize_image(&small_png()).expect("a photo");
    assert!(check_stored_file(true, encoded.len() as u64).is_ok());
}

#[test]
fn photos_are_shown_as_data_urls() {
    assert_eq!(skin_data_url(b""), "data:image/jpeg;base64,");
    assert_eq!(skin_data_url(b"M"), "data:image/jpeg;base64,TQ==");
    assert_eq!(skin_data_url(b"Ma"), "data:image/jpeg;base64,TWE=");
    assert_eq!(skin_data_url(b"Man"), "data:image/jpeg;base64,TWFu");
    assert_eq!(
        skin_data_url(b"\xfb\xff\xfe\x3e"),
        "data:image/jpeg;base64,+//+Pg=="
    );
    assert_ne!(skin_data_url(b"\0"), skin_data_url(b"\0\0"));
}

#[test]
fn each_outcome_of_reading_a_photo_is_told() {
    assert_eq!(
        check_format(FormatGuess::Photo(PhotoFormat::WebP)),
        Ok(PhotoFormat::WebP)
    );
    assert_eq!(
        check_format(FormatGuess::Unsupported).unwrap_err(),
        "仅支持 PNG、JPG、WEBP 图片"
    );
    assert_eq!(
        check_format(FormatGuess::Unknown).unwrap_err(),
        "无法识别图片格式"
    );
    assert_eq!(check_read_size(Ok((3, 4))), Ok((3, 4)));
    assert_eq!(
        check_read_size(Ok((0, 4))).unwrap_err(),
        "照片尺寸不能超过 4096×4096 或 1600 万像素"
    );
    assert_eq!(
        check_read_size(Err("cut".to_owned())).unwrap_err(),
        "无法读取图片尺寸：cut"
    );
    assert_eq!(broken_message("cut"), "照片已损坏或无法解码：cut");
}

fn gradient() -> DynamicImage {
    let mut pixels = Vec::new();
    for y in 0..8u8 {
        for x in 0..12u8 {
            pixels.extend_from_slice(&[x * 20, y * 30, 255 - x * y]);
        }
    }
    DynamicImage::ImageRgb8(image::RgbImage::from_raw(12, 8, pixels).expect("twelve by eight"))
}

fn encoded_as(picture: &DynamicImage, format: ImageFormat) -> Vec<u8> {
    let mut output = Cursor::new(Vec::new());
    picture
        .write_to(&mut output, format)
        .expect("test picture should encode");
    output.into_inner()
}

/// A JPEG file with a comment and an EXIF segment after its first mark.
fn with_metadata(jpeg: &[u8]) -> Vec<u8> {
    let mut bytes = jpeg[..2].to_vec();
    bytes.extend_from_slice(b"\xff\xfe\x00\x0ftaken at home");
    bytes.extend_from_slice(b"\xff\xe1\x00\x10Exif\0\0MM\x00*\0\0\0\0");
    bytes.extend_from_slice(&jpeg[2..]);
    bytes
}

#[test]
fn only_the_picture_is_stored() {
    let png = normalize_image(&encoded_as(&gradient(), ImageFormat::Png)).expect("a photo");
    let webp = normalize_image(&encoded_as(&gradient(), ImageFormat::WebP)).expect("a photo");
    assert_eq!(png, webp);
    let plain = encoded_as(&gradient(), ImageFormat::Jpeg);
    let tagged = with_metadata(&plain);
    assert_ne!(plain, tagged);
    let stored = normalize_image(&tagged).expect("a photo");
    assert_eq!(stored, normalize_image(&plain).expect("a photo"));
    assert!(!stored.windows(4).any(|part| part == b"home" || part == b"Exif"));
}
