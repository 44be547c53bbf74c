use archetype_browser::net::{LoadError, ResponseBytes};
use archetype_browser::page_load::{PageResources, PAGE_LIMIT};
use archetype_browser::url::WebUrl;

fn url(value: &str) -> WebUrl {
    WebUrl::parse(value).unwrap()
}

fn response(final_url: &str, body: &[u8]) -> ResponseBytes {
    ResponseBytes { final_url: url(final_url), content_type: None, body: body.to_vec() }
}

/// A one-pixel PNG image.
fn pixel_png() -> Vec<u8> {
    let mut bytes = Vec::new();
    let image = image::RgbaImage::from_pixel(3, 2, image::Rgba([1, 2, 3, 255]));
    image.write_to(&mut std::io::Cursor::new(&mut bytes), image::ImageFormat::Png).unwrap();
    bytes
}

#[test]
fn stylesheets_join_the_style_text_when_they_are_usable() {
    let base = url("https://example.test/index.html");
    let mut resources = PageResources::new(10, "body{}\n".to_owned());
    let sheet = url("https://example.test/a.css");
    assert!(resources.admit_stylesheet(&base, &sheet));
    resources.accept_stylesheet(&base, &sheet, Ok(response("https://example.test/a.css", b"p{}")));
    resources.accept_stylesheet(&base, &sheet, Ok(response("https://example.test/a.css", &[0xff])));
    resources.accept_stylesheet(&base, &sheet, Ok(response("https://cdn.test/a.css", b"x")));
    assert!(!resources.admit_stylesheet(&base, &url("https://cdn.test/b.css")));
    resources.accept_stylesheet(&base, &sheet, Err(LoadError::InvalidFileUrl));
    let (css, images, diagnostics) = resources.finish();
    assert_eq!(css, "body{}\np{}\n");
    assert!(images.is_empty());
    assert_eq!(
        diagnostics,
        vec![
            "ignored non-UTF-8 stylesheet: https://example.test/a.css".to_owned(),
            "ignored stylesheet redirected across origins: https://example.test/a.css".to_owned(),
            "ignored cross-origin stylesheet: https://cdn.test/b.css".to_owned(),
            "could not load stylesheet https://example.test/a.css: file URL cannot be converted to a local path".to_owned(),
        ]
    );
}

#[test]
fn images_are_sized_by_their_pixels_or_fall_back() {
    let base = url("https://example.test/index.html");
    let source = url("https://example.test/p.png");
    let mut resources = PageResources::new(0, String::new());
    let loaded = resources.accept_image(&base, &source, "a pixel".to_owned(), Ok(response("https://example.test/p.png", &pixel_png())));
    assert!(loaded.loaded);
    assert_eq!((loaded.intrinsic_width, loaded.intrinsic_height), (3, 2));
    assert_eq!(loaded.alt, "a pixel");
    let broken = resources.accept_image(&base, &url("https://example.test/q.png"), String::new(), Ok(response("https://example.test/q.png", b"not an image")));
    assert!(!broken.loaded);
    assert_eq!((broken.intrinsic_width, broken.intrinsic_height), (160, 32));
    let (_, images, diagnostics) = resources.finish();
    assert_eq!(images.len(), 1);
    assert_eq!(images[0].0, "https://example.test/p.png");
    assert_eq!(diagnostics.len(), 1);
    assert!(diagnostics[0].starts_with("could not decode image https://example.test/q.png: "));
}

#[test]
fn the_page_budget_counts_the_document() {
    let base = url("https://example.test/");
    let sheet = url("https://example.test/a.css");
    let mut resources = PageResources::new(PAGE_LIMIT - 2, String::new());
    resources.accept_stylesheet(&base, &sheet, Ok(response("https://example.test/a.css", b"abc")));
    resources.invalid_image_source();
    assert!(!resources.admit_image(&base, &url("https://cdn.test/x.png")));
    let (css, _, diagnostics) = resources.finish();
    assert_eq!(css, "");
    assert_eq!(
        diagnostics,
        vec![
            "ignored stylesheet beyond page resource budget: https://example.test/a.css".to_owned(),
            "ignored image with invalid source".to_owned(),
            "ignored cross-origin image: https://cdn.test/x.png".to_owned(),
        ]
    );
}
