use ptiff_core::io::backend::openexr::{
    channel_names_for, expected_pixel_bytes, image_info_from_model, model_from_image_info, OpenExrImageInfo,
};
use ptiff_core::io::StorageModel;
use ptiff_core::{ErrorCode, PixelType};

fn float_model(w: &str, h: &str, spp: &str) -> StorageModel {
    let mut m = StorageModel::new();
    m.set_field("imageWidth", w);
    m.set_field("imageHeight", h);
    m.set_field("samplesPerPixel", spp);
    m.set_field("pixelType", "Float32");
    m
}

#[test]
fn channel_names_cover_gray_rgb_and_rgba() {
    assert_eq!(channel_names_for(1).unwrap(), ["Y", "", "", ""]);
    assert_eq!(channel_names_for(3).unwrap(), ["R", "G", "B", ""]);
    assert_eq!(channel_names_for(4).unwrap(), ["R", "G", "B", "A"]);
    let err = channel_names_for(2).unwrap_err();
    assert_eq!(err.code(), ErrorCode::InvalidArgument);
}

#[test]
fn info_from_model_reads_size_channels_and_type() {
    let mut m = float_model("7", "5", "3");
    m.set_field("tileWidth", "7");
    m.set_field("tileHeight", "5");
    m.set_field("compression", "none");
    let info = image_info_from_model(&m).unwrap();
    assert_eq!(info, OpenExrImageInfo { width: 7, height: 5, samples_per_pixel: 3, pixel_type: PixelType::Float32 });
}

#[test]
fn info_from_model_rejects_what_exr_cannot_hold() {
    let mut m = float_model("8", "8", "1");
    m.set_field("pixelType", "UInt8");
    assert_eq!(image_info_from_model(&m).unwrap_err().message(), "openexr: unrecognized pixelType");

    let m = float_model("8", "8", "2");
    assert_eq!(image_info_from_model(&m).unwrap_err().code(), ErrorCode::InvalidArgument);

    let mut m = float_model("8", "8", "1");
    m.set_field("tileWidth", "4");
    assert_eq!(
        image_info_from_model(&m).unwrap_err().message(),
        "openexr: tileWidth must equal imageWidth (whole-image tile only)"
    );

    let mut m = float_model("8", "8", "1");
    m.set_field("compression", "LZW");
    assert_eq!(
        image_info_from_model(&m).unwrap_err().message(),
        "openexr: only uncompressed (compression==None) images are supported"
    );

    let m = float_model("eight", "8", "1");
    assert_eq!(image_info_from_model(&m).unwrap_err().message(), "openexr: non-numeric imageWidth");

    let mut m = StorageModel::new();
    m.set_field("imageHeight", "8");
    assert_eq!(image_info_from_model(&m).unwrap_err().message(), "openexr: missing imageWidth");
}

#[test]
fn model_from_info_round_trips_through_info_from_model() {
    let info = OpenExrImageInfo { width: 12, height: 3, samples_per_pixel: 4, pixel_type: PixelType::UInt32 };
    let root = model_from_image_info(&info);
    assert_eq!(root.child_count(), 1);
    let image = &root.children()[0];
    assert_eq!(image.field("imageWidth").unwrap(), "12");
    assert_eq!(image.field("pixelType").unwrap(), "UInt32");
    assert_eq!(image_info_from_model(image).unwrap(), info);
}

#[test]
fn expected_pixel_bytes_multiplies_out() {
    let info = OpenExrImageInfo { width: 4, height: 2, samples_per_pixel: 3, pixel_type: PixelType::Float32 };
    assert_eq!(expected_pixel_bytes(&info).unwrap(), 4 * 2 * 3 * 4);
    let empty = OpenExrImageInfo { width: 0, height: 9, samples_per_pixel: 1, pixel_type: PixelType::UInt32 };
    assert_eq!(expected_pixel_bytes(&empty).unwrap(), 0);
}
