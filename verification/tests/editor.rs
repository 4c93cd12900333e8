use base64::{engine::general_purpose::STANDARD, Engine};
use recap::editor::{
    check_size, data_url_text, decode_data_url, decoded_image, editor_url, load_image, mime_for, payload,
    png_file_name, suggested_name, urlencode, MAX_INLINE_BYTES,
};

#[test]
fn urlencode_escapes_characters_that_would_break_a_query_string() {
    assert_eq!(urlencode("/Users/j/My Shots/a#1.png"), "%2FUsers%2Fj%2FMy%20Shots%2Fa%231.png");
    assert_eq!(urlencode("plain-name_1.png"), "plain-name_1.png");
}

#[test]
fn data_url_round_trips_through_decode() {
    let url = format!("data:image/png;base64,{}", STANDARD.encode(b"hello"));
    assert_eq!(decode_data_url(&url).unwrap(), b"hello");
}

#[test]
fn decode_rejects_a_url_without_a_base64_payload() {
    assert!(decode_data_url("data:image/png,notbase64").is_err());
    assert!(decode_data_url("/just/a/path.png").is_err());
    assert_eq!(decode_data_url("/just/a/path.png").unwrap_err(), "not a base64 data URL");
}

#[test]
fn mime_follows_the_extension_and_defaults_to_png() {
    assert_eq!(mime_for("a.jpg"), "image/jpeg");
    assert_eq!(mime_for("a.JPEG"), "image/jpeg");
    assert_eq!(mime_for("a.png"), "image/png");
    assert_eq!(mime_for("noext"), "image/png");
}

#[test]
fn an_image_travels_there_and_back() {
    let bytes = [0u8, 1, 2, 250, 255];
    let url = load_image("shot.JPG", &bytes);
    assert_eq!(url, "data:image/jpeg;base64,AAEC+v8=");
    assert_eq!(decode_data_url(&url).unwrap(), bytes);
    let empty = load_image(".jpg", &[]);
    assert_eq!(empty, "data:image/png;base64,");
    assert!(decode_data_url(&empty).unwrap().is_empty());
}

#[test]
fn corrupt_data_is_reported_as_such() {
    let e = decode_data_url("data:image/png;base64,!!").unwrap_err();
    assert!(e.starts_with("corrupt image data: "), "{e}");
    assert_eq!(decoded_image(Err("why".to_string())), Err("corrupt image data: why".to_string()));
    assert_eq!(decoded_image(Ok(vec![7])), Ok(vec![7]));
}

#[test]
fn the_payload_follows_the_first_mark() {
    assert_eq!(payload("x;base64,a;base64,b"), Some("a;base64,b".to_string()));
    assert_eq!(payload("x;base64"), None);
    assert_eq!(data_url_text("image/png", "AA=="), "data:image/png;base64,AA==");
}

#[test]
fn only_png_is_ever_saved() {
    assert_eq!(png_file_name("a.png"), "a.png");
    assert_eq!(png_file_name("a.PNG"), "a.PNG");
    assert_eq!(png_file_name("a.jpg"), "a.png");
    assert_eq!(png_file_name("a.tar.gz"), "a.tar.png");
    assert_eq!(png_file_name("a"), "a.png");
    assert_eq!(png_file_name(".hidden"), ".hidden.png");
    assert_eq!(png_file_name(&png_file_name("a.b.jpeg")), "a.b.png");
}

#[test]
fn a_dialog_always_suggests_a_name() {
    assert_eq!(suggested_name(Some("a.png".to_string())), "a.png");
    assert_eq!(suggested_name(None), "Recap.png");
}

#[test]
fn absurd_images_are_refused() {
    assert!(check_size(MAX_INLINE_BYTES).is_ok());
    assert_eq!(
        check_size(65 * 1024 * 1024 + 5),
        Err("image is too large to edit (65 MB)".to_string())
    );
}

#[test]
fn escapes_cover_every_byte_of_a_character() {
    assert_eq!(urlencode("\u{e9}~"), "%C3%A9~");
    assert_eq!(editor_url("/a b"), "editor.html?path=%2Fa%20b");
}
