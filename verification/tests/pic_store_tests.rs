use export_logseq_notes::pic_store::{
    fallback_output, image_step, is_ready, sort_outputs_by_size, upload_settings, ImageAction,
    ImageEvent, ImageState, PicStoreImageData, PicStoreImageOutput,
};

fn output(url: &str, width: Option<u32>, height: Option<u32>, size: Option<u32>) -> PicStoreImageOutput {
    PicStoreImageOutput {
        id: url.to_string(),
        url: url.to_string(),
        srcset: None,
        status: "ready".to_string(),
        file_size: size,
        width,
        height,
        format: "webp".to_string(),
    }
}

fn data(output: Vec<PicStoreImageOutput>) -> PicStoreImageData {
    PicStoreImageData {
        id: "img".to_string(),
        status: "ready".to_string(),
        url: "orig".to_string(),
        width: Some(200),
        height: Some(100),
        alt_text: String::new(),
        file_size: None,
        output,
    }
}

#[test]
fn outputs_sorted_by_size_unknown_first() {
    let sorted = sort_outputs_by_size(vec![
        output("big", None, None, Some(30)),
        output("none", None, None, None),
        output("small", None, None, Some(10)),
    ]);
    let urls: Vec<&str> = sorted.iter().map(|o| o.url.as_str()).collect();
    assert_eq!(urls, vec!["none", "small", "big"]);
}

#[test]
fn double_width_versions_are_paired() {
    let d = data(vec![
        output("a", Some(100), Some(50), Some(10)),
        output("b", Some(200), Some(100), Some(30)),
        output("c", Some(150), Some(75), Some(20)),
    ])
    .combine_2x();
    let srcsets: Vec<&str> = d.output.iter().map(|o| o.srcset.as_deref().unwrap()).collect();
    assert_eq!(srcsets, vec!["a, b 2x", "b", "c"]);
    assert_eq!(d.id, "img");
}

#[test]
fn double_height_used_without_width_match() {
    let d = data(vec![output("p", None, Some(40), None), output("q", Some(7), Some(80), None)])
        .combine_2x();
    assert_eq!(d.output[0].srcset.as_deref(), Some("p, q 2x"));
    assert_eq!(d.output[1].srcset.as_deref(), Some("q"));
}

#[test]
fn existing_srcset_becomes_own_url() {
    let mut o = output("x", Some(100), None, None);
    o.srcset = Some("old".to_string());
    let d = data(vec![o, output("y", Some(200), None, None)]).combine_2x();
    assert_eq!(d.output[0].srcset.as_deref(), Some("x"));
}

#[test]
fn upload_location_and_profile() {
    assert_eq!(
        upload_settings("a.png", Some("notes"), None, Some("default")),
        (Some("notes/a.png".to_string()), Some("default".to_string()))
    );
    assert_eq!(
        upload_settings("a.png", None, Some("page"), Some("default")),
        (None, Some("page".to_string()))
    );
    assert_eq!(upload_settings("a.png", None, None, None), (None, None));
}

#[test]
fn image_steps() {
    assert!(is_ready("ready"));
    assert!(!is_ready("queued"));
    assert_eq!(
        image_step(ImageState::Start, ImageEvent::Database(true)),
        (ImageState::Done, ImageAction::UseRecorded)
    );
    assert_eq!(
        image_step(ImageState::Start, ImageEvent::Database(false)),
        (ImageState::AskedPicStore, ImageAction::AskPicStore)
    );
    assert_eq!(
        image_step(ImageState::AskedPicStore, ImageEvent::Exists),
        (ImageState::Done, ImageAction::RecordAndUse)
    );
    assert_eq!(
        image_step(ImageState::AskedPicStore, ImageEvent::Uploaded("id1".to_string())),
        (ImageState::Processing("id1".to_string()), ImageAction::WaitForProcessing)
    );
    assert_eq!(
        image_step(ImageState::Processing("id1".to_string()), ImageEvent::Status(false)),
        (ImageState::Processing("id1".to_string()), ImageAction::WaitForProcessing)
    );
    assert_eq!(
        image_step(ImageState::Processing("id1".to_string()), ImageEvent::Status(true)),
        (ImageState::Done, ImageAction::RecordAndUse)
    );
    assert_eq!(
        image_step(ImageState::Done, ImageEvent::Exists),
        (ImageState::Done, ImageAction::Ignore)
    );
}

#[test]
fn fallback_is_first_jpeg_or_png() {
    let mut outs = vec![output("a", None, None, None), output("b", None, None, None), output("c", None, None, None)];
    assert_eq!(fallback_output(&outs), Some(0));
    outs[2].format = "png".to_string();
    outs[1].format = "jpg".to_string();
    assert_eq!(fallback_output(&outs), Some(1));
    assert_eq!(fallback_output(&Vec::new()), None);
}
