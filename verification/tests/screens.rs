use minutes_core::screens::{
    encode_images, image_data_url, screens_dir_for, screens_to_read, screenshot_file_name, screenshot_names,
};
use minutes_core::summary::agent_args;

#[test]
fn list_screenshots_returns_sorted_pngs() {
    let names = vec![
        "screen-0002-0060s.png".to_string(),
        "screen-0000-0000s.png".to_string(),
        "screen-0001-0030s.png".to_string(),
        "not-a-screenshot.txt".to_string(),
        ".png".to_string(),
    ];
    assert_eq!(
        screenshot_names(&names),
        vec!["screen-0000-0000s.png", "screen-0001-0030s.png", "screen-0002-0060s.png"]
    );
}

#[test]
fn at_most_eight_screens() {
    let files: Vec<String> = (0..10).map(|i| format!("/s/{}.png", i)).collect();
    let chosen = screens_to_read(&files);
    assert_eq!(chosen.len(), 8);
    assert_eq!(chosen[7], "/s/7.png");
}

#[test]
fn images_encoded_in_base64() {
    let reads = vec![
        ("/s/a.png".to_string(), Some(b"Man".to_vec())),
        ("/s/missing.png".to_string(), None),
        ("/".to_string(), Some(b"Ma".to_vec())),
    ];
    let images = encode_images(&reads);
    assert_eq!(images.len(), 2);
    assert_eq!(images[0].name, "a.png");
    assert_eq!(images[0].data, "TWFu");
    assert_eq!(images[1].name, "screenshot.png");
    assert_eq!(images[1].data, "TWE=");
    assert_eq!(image_data_url(&images[0]), "data:image/png;base64,TWFu");
}

#[test]
fn agent_arguments() {
    assert_eq!(agent_args("codex"), vec!["exec", "-", "-s", "read-only"]);
    assert_eq!(agent_args("/usr/bin/codex"), vec!["exec", "-", "-s", "read-only"]);
    assert!(agent_args("mycodex").is_empty());
}

#[test]
fn screenshot_names_keep_every_png() {
    let names = vec!["b.png".to_string(), "a.png".to_string(), "b.png".to_string(), "c.PNG".to_string()];
    assert_eq!(screenshot_names(&names), vec!["a.png", "b.png", "b.png"]);
}

#[test]
fn screens_dir_uses_the_recording_stem() {
    assert_eq!(screens_dir_for("/tmp/recording.wav", "/home/u"), "/home/u/.minutes/screens/recording");
    assert_eq!(screens_dir_for("/tmp/a.b.m4a", "/home/u/"), "/home/u/.minutes/screens/a.b");
    assert_eq!(screens_dir_for("/tmp/.hidden", "/home/u"), "/home/u/.minutes/screens/.hidden");
    assert_eq!(screens_dir_for("/", "/home/u"), "/home/u/.minutes/screens/unknown");
}

#[test]
fn screenshot_file_names_are_zero_padded() {
    assert_eq!(screenshot_file_name(0, 0), "screen-0000-0000s.png");
    assert_eq!(screenshot_file_name(2, 60), "screen-0002-0060s.png");
    assert_eq!(screenshot_file_name(12345, 9), "screen-12345-0009s.png");
    let taken: Vec<String> = (0..3).map(|i| screenshot_file_name(i, 30 * i as u64)).collect();
    assert_eq!(screenshot_names(&taken), taken);
}
