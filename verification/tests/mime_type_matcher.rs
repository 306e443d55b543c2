use accept_encoding::match_for_mime_type;
use accept_encoding::mime_type_matcher::{split_mime_type, MimeTypeMatch, MimeTypeMatchType};
use accept_encoding::q_value::QValue;

fn qv(millis: u16) -> QValue {
    QValue::from_millis(millis).unwrap()
}

#[test]
fn test_split_mime_type() {
    assert_eq!(
        Some((b"image".as_slice(), b"webp".as_slice())),
        split_mime_type(b"image/webp")
    );
}

#[test]
fn test_match_for_mime_type() {
    assert_eq!(
        Some(MimeTypeMatch {
            match_type: MimeTypeMatchType::MainTypeWildcard,
            q: qv(1000),
        }),
        match_for_mime_type(b"*/*", b"image/webp"),
    );

    assert_eq!(
        Some(MimeTypeMatch {
            match_type: MimeTypeMatchType::SubTypeWildcard,
            q: qv(1000),
        }),
        match_for_mime_type(b"image/*", b"image/webp"),
    );

    assert_eq!(
        Some(MimeTypeMatch {
            match_type: MimeTypeMatchType::Exact,
            q: qv(1000),
        }),
        match_for_mime_type(b"image/webp", b"image/webp"),
    );

    let chrome_accept_html = b"text/html,application/xhtml+xml,application/xml;q=0.9,image/avif,image/webp,image/apng,*/*;q=0.8,application/signed-exchange;v=b3;q=0.7";

    assert_eq!(
        Some(MimeTypeMatch {
            match_type: MimeTypeMatchType::MainTypeWildcard,
            q: qv(800),
        }),
        match_for_mime_type(chrome_accept_html, b"image/png"),
    );

    let chrome_accept_img_tag = b"image/avif,image/webp,image/apng,image/svg+xml,image/*,*/*;q=0.8";
    let chrome_webp_match = match_for_mime_type(chrome_accept_img_tag, b"image/webp");
    let chrome_png_match = match_for_mime_type(chrome_accept_img_tag, b"image/png");
    assert_eq!(
        Some(MimeTypeMatch {
            match_type: MimeTypeMatchType::Exact,
            q: qv(1000),
        }),
        chrome_webp_match,
    );
    assert_eq!(
        Some(MimeTypeMatch {
            match_type: MimeTypeMatchType::SubTypeWildcard,
            q: qv(1000),
        }),
        chrome_png_match,
    );
    assert!(chrome_webp_match.gt(&chrome_png_match));

    let safari_accept_img_tag =
        b"image/webp,image/avif,video/*;q=0.8,image/png,image/svg+xml,image/*;q=0.8,*/*;q=0.5";
    let safari_webp_match = match_for_mime_type(safari_accept_img_tag, b"image/webp");
    let safari_png_match = match_for_mime_type(safari_accept_img_tag, b"image/png");
    assert_eq!(
        Some(MimeTypeMatch {
            match_type: MimeTypeMatchType::Exact,
            q: qv(1000),
        }),
        safari_webp_match,
    );
    assert_eq!(
        Some(MimeTypeMatch {
            match_type: MimeTypeMatchType::Exact,
            q: qv(1000),
        }),
        safari_png_match,
    );
    assert!(safari_webp_match.eq(&safari_png_match));

    let firefox_accept_img_tag = b"image/avif,image/webp,*/*";
    let firefox_webp_match = match_for_mime_type(firefox_accept_img_tag, b"image/webp");
    let firefox_png_match = match_for_mime_type(firefox_accept_img_tag, b"image/png");
    assert_eq!(
        Some(MimeTypeMatch {
            match_type: MimeTypeMatchType::Exact,
            q: qv(1000),
        }),
        firefox_webp_match,
    );
    assert_eq!(
        Some(MimeTypeMatch {
            match_type: MimeTypeMatchType::MainTypeWildcard,
            q: qv(1000),
        }),
        firefox_png_match,
    );
    assert!(firefox_webp_match.gt(&firefox_png_match));
}
