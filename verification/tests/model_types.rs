use gateway_codec::embed::EmbedImage;
use gateway_codec::presence::ActivityAssets;

#[test]
fn test_embed_image() {
    let value = EmbedImage {
        height: Some(1440),
        proxy_url: Some("https://cdn.example.com/1-hash.png".to_owned()),
        url: Some("https://example.com/1.png".to_owned()),
        width: Some(2560),
    };

    assert_eq!(value.height, Some(1440));
    assert_eq!(value.proxy_url.as_deref(), Some("https://cdn.example.com/1-hash.png"));
    assert_eq!(value.url.as_deref(), Some("https://example.com/1.png"));
    assert_eq!(value.width, Some(2560));
    assert_eq!(value.clone(), value);
}

#[test]
fn test_activity_secrets() {
    let value = ActivityAssets {
        large_image: Some("large image hash".to_owned()),
        large_text: Some("large image text".to_owned()),
        small_image: Some("small image hash".to_owned()),
        small_text: Some("small text hash".to_owned()),
    };

    assert_eq!(value.large_image.as_deref(), Some("large image hash"));
    assert_eq!(value.large_text.as_deref(), Some("large image text"));
    assert_eq!(value.small_image.as_deref(), Some("small image hash"));
    assert_eq!(value.small_text.as_deref(), Some("small text hash"));
    assert_eq!(value.clone(), value);
}
