use static_server::content::{content_type_for, content_type_for_path, ContentType};

#[test]
fn content_type_names() {
    assert_eq!(ContentType::Html.as_str(), "text/html");
    assert_eq!(ContentType::Plain.as_str(), "text/plain");
    assert_eq!(ContentType::OctetStream.as_str(), "application/octet-stream");
}

#[test]
fn html_by_suffix() {
    assert_eq!(content_type_for(b"index.html"), ContentType::Html);
    assert_eq!(content_type_for(b".html"), ContentType::Html);
    assert_eq!(content_type_for(b"a.txt.html"), ContentType::Html);
}

#[test]
fn plain_text_by_suffix() {
    assert_eq!(content_type_for(b"notes.txt"), ContentType::Plain);
    assert_eq!(content_type_for(b".txt"), ContentType::Plain);
    assert_eq!(content_type_for(b"a.html.txt"), ContentType::Plain);
}

#[test]
fn everything_else_is_an_octet_stream() {
    assert_eq!(content_type_for(b""), ContentType::OctetStream);
    assert_eq!(content_type_for(b"README"), ContentType::OctetStream);
    assert_eq!(content_type_for(b"image.png"), ContentType::OctetStream);
    assert_eq!(content_type_for(b"page.htm"), ContentType::OctetStream);
    assert_eq!(content_type_for(b"html"), ContentType::OctetStream);
    assert_eq!(content_type_for(b"txt"), ContentType::OctetStream);
    assert_eq!(content_type_for(b"a.html.bak"), ContentType::OctetStream);
    assert_eq!(content_type_for(b"a.txt~"), ContentType::OctetStream);
}

#[test]
fn the_suffix_is_matched_to_the_letter() {
    assert_eq!(content_type_for(b"INDEX.HTML"), ContentType::OctetStream);
    assert_eq!(content_type_for(b"a.Txt"), ContentType::OctetStream);
    assert_eq!(content_type_for(b"a.html "), ContentType::OctetStream);
    assert_eq!(content_type_for(b"ahtml"), ContentType::OctetStream);
}

#[test]
fn the_final_component_decides() {
    assert_eq!(content_type_for_path(b"/srv/root/index.html"), ContentType::Html);
    assert_eq!(content_type_for_path(b"/srv/root/a/notes.txt"), ContentType::Plain);
    assert_eq!(content_type_for_path(b"/srv/root.html/data"), ContentType::OctetStream);
    assert_eq!(content_type_for_path(b"/srv/site.txt/index.html"), ContentType::Html);
    assert_eq!(content_type_for_path(b"/srv/root/file"), ContentType::OctetStream);
}

#[test]
fn a_path_without_file_name_is_an_octet_stream() {
    assert_eq!(content_type_for_path(b"/"), ContentType::OctetStream);
    assert_eq!(content_type_for_path(b""), ContentType::OctetStream);
    assert_eq!(content_type_for_path(b"/a.html/.."), ContentType::OctetStream);
}
