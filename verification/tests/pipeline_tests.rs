use rdedup::entry::{DirectoryEntry, TraversalError, WalkItem};
use rdedup::fingerprint::{fingerprint, PixelGrid, FINGERPRINT_LENGTH, FINGERPRINT_SIDE};
use rdedup::pipeline::{
    diagnose, diagnostic_line, diagnostics_of, digest, emit, process, receive, record_line,
    records_of, Digest, Effect, Reception, ResultRecord,
};

fn black() -> PixelGrid {
    PixelGrid::new(8, 8, vec![0u8; 64]).unwrap()
}

fn ramp(width: u32, height: u32) -> Vec<u8> {
    let mut pixels = Vec::new();
    for y in 0..height {
        for x in 0..width {
            pixels.push(((x * 7 + y * 13) % 256) as u8);
        }
    }
    pixels
}

fn file_item(path: &str) -> WalkItem {
    WalkItem::Entry(DirectoryEntry {
        path: String::from(path),
        depth: 1,
        is_directory: false,
        file_name: Some(String::from("a.jpg")),
    })
}

fn report(text: &str) -> Vec<Effect> {
    vec![Effect::Flush, Effect::Report(String::from(text))]
}

#[test]
fn a_grid_needs_a_level_for_each_pixel() {
    assert!(PixelGrid::new(2, 3, vec![0u8; 6]).is_some());
    assert!(PixelGrid::new(2, 3, vec![0u8; 5]).is_none());
    assert!(PixelGrid::new(2, 3, vec![0u8; 7]).is_none());
    assert!(PixelGrid::new(0, 3, Vec::new()).is_none());
    assert!(PixelGrid::new(3, 0, Vec::new()).is_none());
    assert!(PixelGrid::new(u32::MAX, u32::MAX, vec![0u8; 1]).is_none());
}

#[test]
fn a_grid_is_no_larger_than_the_image_library_can_index() {
    let widest: u32 = 134_217_727;
    assert!(PixelGrid::new(widest, 1, vec![0u8; widest as usize]).is_some());
    assert!(PixelGrid::new(widest + 1, 1, vec![0u8; widest as usize + 1]).is_none());
    assert!(PixelGrid::new(1, widest + 1, vec![0u8; widest as usize + 1]).is_some());
    assert!(PixelGrid::new(65536, 65537, Vec::new()).is_none());
    assert!(PixelGrid::new(65536, 65536, Vec::new()).is_none());
}

#[test]
fn long_and_tall_grids_are_fingerprinted() {
    let long = PixelGrid::new(70_000, 2, ramp(70_000, 2)).unwrap();
    assert_eq!(fingerprint(&long).chars().count(), 12);
    let tall = PixelGrid::new(2, 70_000, ramp(2, 70_000)).unwrap();
    assert_eq!(fingerprint(&tall).chars().count(), 12);
}

#[test]
fn a_grid_gives_back_what_it_was_made_of() {
    let grid = PixelGrid::new(2, 3, vec![1, 2, 3, 4, 5, 6]).unwrap();
    assert_eq!(grid.width(), 2);
    assert_eq!(grid.height(), 3);
    assert_eq!(grid.pixels(), &vec![1u8, 2, 3, 4, 5, 6]);
}

#[test]
fn the_fingerprint_side_is_eight() {
    assert_eq!(FINGERPRINT_SIDE, 8);
}

#[test]
fn black_square_has_the_all_ones_fingerprint() {
    assert_eq!(fingerprint(&black()), "Av//////////");
}

#[test]
fn fingerprints_have_twelve_letters() {
    let grid = PixelGrid::new(40, 30, ramp(40, 30)).unwrap();
    assert_eq!(FINGERPRINT_LENGTH, 12);
    assert_eq!(fingerprint(&grid).chars().count(), 12);
    assert_eq!(fingerprint(&black()).chars().count(), 12);
    let wide = PixelGrid::new(300, 1, ramp(300, 1)).unwrap();
    assert_eq!(fingerprint(&wide).chars().count(), 12);
    let single = PixelGrid::new(1, 1, vec![200u8]).unwrap();
    assert_eq!(fingerprint(&single).chars().count(), 12);
}

#[test]
fn the_same_pixels_give_the_same_fingerprint() {
    let first = PixelGrid::new(40, 30, ramp(40, 30)).unwrap();
    let second = PixelGrid::new(40, 30, ramp(40, 30)).unwrap();
    assert_eq!(fingerprint(&first), fingerprint(&second));
    assert_eq!(fingerprint(&first), fingerprint(&first));
}

#[test]
fn different_pictures_give_different_fingerprints() {
    let picture = PixelGrid::new(40, 30, ramp(40, 30)).unwrap();
    assert_ne!(fingerprint(&picture), fingerprint(&black()));
}

#[test]
fn the_fingerprint_is_that_of_the_decoded_image() {
    let mut raw = Vec::new();
    for y in 0..30u32 {
        for x in 0..40u32 {
            raw.push(((x * 5) % 256) as u8);
            raw.push(((y * 9) % 256) as u8);
            raw.push(((x + y) % 256) as u8);
        }
    }
    let rgb = image::RgbImage::from_raw(40, 30, raw).unwrap();
    let decoded = image::DynamicImage::ImageRgb8(rgb);
    let direct = img_hash::ImageHash::hash(&decoded, 8, img_hash::HashType::DCT).to_base64();
    let grey = image::imageops::grayscale(&decoded);
    let grid = PixelGrid::new(grey.width(), grey.height(), grey.into_raw()).unwrap();
    assert_eq!(fingerprint(&grid), direct);
}

#[test]
fn the_fingerprint_of_a_grey_image_is_kept() {
    let grey = image::GrayImage::from_raw(17, 9, ramp(17, 9)).unwrap();
    let decoded = image::DynamicImage::ImageLuma8(grey);
    let direct = img_hash::ImageHash::hash(&decoded, 8, img_hash::HashType::DCT).to_base64();
    let levels = image::imageops::grayscale(&decoded);
    let grid = PixelGrid::new(levels.width(), levels.height(), levels.into_raw()).unwrap();
    assert_eq!(fingerprint(&grid), direct);
}

#[test]
fn a_record_is_fingerprint_tab_path_newline() {
    assert_eq!(record_line("Av//////////", "/data/a.jpg"), "Av//////////\t/data/a.jpg\n");
    assert_eq!(record_line("", ""), "\t\n");
}

#[test]
fn a_diagnostic_is_prefixed() {
    assert_eq!(diagnostic_line("no such file"), "ERROR: no such file\n");
    assert_eq!(diagnostic_line(""), "ERROR: \n");
}

#[test]
fn a_failure_flushes_before_it_reports() {
    assert_eq!(diagnose("denied"), report("denied"));
}

#[test]
fn a_traversal_error_is_diagnosed() {
    let item = WalkItem::Failure(TraversalError { message: String::from("denied") });
    assert_eq!(receive(&item), Reception::Settled(report("denied")));
}

#[test]
fn a_directory_is_passed_over() {
    let item = WalkItem::Entry(DirectoryEntry {
        path: String::from("/data"),
        depth: 0,
        is_directory: true,
        file_name: Some(String::from("data")),
    });
    assert_eq!(receive(&item), Reception::Settled(Vec::new()));
}

#[test]
fn a_file_is_to_be_decoded() {
    assert_eq!(receive(&file_item("/data/a.jpg")), Reception::Decode(String::from("/data/a.jpg")));
}

#[test]
fn a_decoding_error_is_diagnosed() {
    let decoded: Result<PixelGrid, String> = Err(String::from("Unsupported image format"));
    assert_eq!(digest(&decoded), Digest::Rejected(report("Unsupported image format")));
}

#[test]
fn an_image_is_fingerprinted() {
    assert_eq!(digest(&Ok(black())), Digest::Fingerprint(String::from("Av//////////")));
}

#[test]
fn a_resolved_path_gives_a_record() {
    let effects = emit("Av//////////", &Ok(String::from("/data/a.jpg")));
    assert_eq!(
        effects,
        vec![Effect::Write(ResultRecord {
            fingerprint: String::from("Av//////////"),
            canonical_path: String::from("/data/a.jpg"),
        })]
    );
    assert_eq!(effects[0].line(), Some(String::from("Av//////////\t/data/a.jpg\n")));
}

#[test]
fn an_unresolved_path_gives_a_diagnostic() {
    let effects = emit("Av//////////", &Err(String::from("vanished")));
    assert_eq!(effects, report("vanished"));
    assert_eq!(effects[0].line(), None);
    assert_eq!(effects[1].line(), Some(String::from("ERROR: vanished\n")));
}

#[test]
fn an_item_goes_through_all_stages() {
    let ok: Result<String, String> = Ok(String::from("/abs/a.jpg"));
    let effects = process(&file_item("a.jpg"), &Ok(black()), &ok);
    assert_eq!(
        records_of(&effects),
        vec![ResultRecord {
            fingerprint: String::from("Av//////////"),
            canonical_path: String::from("/abs/a.jpg"),
        }]
    );
    assert_eq!(diagnostics_of(&effects), Vec::<String>::new());
    let bad = process(&file_item("c.txt"), &Err(String::from("no image")), &ok);
    assert_eq!(bad, report("no image"));
    assert_eq!(records_of(&bad), Vec::<ResultRecord>::new());
    assert_eq!(diagnostics_of(&bad), vec![String::from("no image")]);
    let failed = WalkItem::Failure(TraversalError { message: String::from("denied") });
    assert_eq!(process(&failed, &Ok(black()), &ok), report("denied"));
}

#[test]
fn effects_are_copied_whole() {
    let write = Effect::Write(ResultRecord {
        fingerprint: String::from("f"),
        canonical_path: String::from("p"),
    });
    assert_eq!(write.duplicate(), write);
    assert_eq!(Effect::Flush.duplicate(), Effect::Flush);
    assert_eq!(Effect::Report(String::from("r")).duplicate(), Effect::Report(String::from("r")));
}
