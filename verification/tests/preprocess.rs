use svg2tex_rs::preprocess::preprocess_svg;

#[test]
fn rewrites_clip_path_images_into_masks() {
    let source = br#"<svg xmlns="http://www.w3.org/2000/svg">
<defs><clipPath id="c"><image href="x"/></clipPath></defs>
<rect clip-path="url(#c)"/>
</svg>"#;
    let rewritten = String::from_utf8(preprocess_svg(source)).unwrap();
    assert!(rewritten.contains("<mask mask-type=\"alpha\""));
    assert!(rewritten.contains("</mask>"));
    assert!(rewritten.contains("mask=\"url(#c)\""));
}

#[test]
fn rewritten_document_is_exact() {
    let source = br#"<svg xmlns="http://www.w3.org/2000/svg">
<defs><clipPath id="c"><image href="x"/></clipPath></defs>
<rect clip-path="url(#c)"/>
</svg>"#;
    let expected = r#"<svg xmlns="http://www.w3.org/2000/svg">
<defs><mask mask-type="alpha" maskUnits="userSpaceOnUse" maskContentUnits="userSpaceOnUse" id="c"><image href="x"/></mask></defs>
<rect mask="url(#c)"/>
</svg>"#;
    assert_eq!(String::from_utf8(preprocess_svg(source)).unwrap(), expected);
}

#[test]
fn clip_paths_without_images_are_kept() {
    let source = br#"<svg xmlns="http://www.w3.org/2000/svg"><clipPath id="c"><rect width="1" height="1"/></clipPath><rect clip-path="url(#c)"/></svg>"#;
    assert_eq!(preprocess_svg(source), source.to_vec());
}

#[test]
fn every_reference_form_is_rewritten() {
    let source = br#"<svg xmlns="http://www.w3.org/2000/svg"><clipPath id="a"><g><image href="x"/></g></clipPath><rect clip-path='url(#a)'/><rect style="clip-path:url(#a)"/><rect clip-path="url(#b)"/></svg>"#;
    let expected = r#"<svg xmlns="http://www.w3.org/2000/svg"><mask mask-type="alpha" maskUnits="userSpaceOnUse" maskContentUnits="userSpaceOnUse" id="a"><g><image href="x"/></g></mask><rect mask='url(#a)'/><rect style="mask:url(#a)"/><rect clip-path="url(#b)"/></svg>"#;
    assert_eq!(String::from_utf8(preprocess_svg(source)).unwrap(), expected);
}

#[test]
fn several_clip_paths_are_rewritten_from_the_end() {
    let source = br#"<svg xmlns="http://www.w3.org/2000/svg"><clipPath id="p"><image/></clipPath><clipPath id="q"><image/></clipPath><g clip-path="url(#p)"/><g clip-path="url(#q)"/></svg>"#;
    let m = r#"<mask mask-type="alpha" maskUnits="userSpaceOnUse" maskContentUnits="userSpaceOnUse""#;
    let expected = format!(
        r#"<svg xmlns="http://www.w3.org/2000/svg">{m} id="p"><image/></mask>{m} id="q"><image/></mask><g mask="url(#p)"/><g mask="url(#q)"/></svg>"#
    );
    assert_eq!(String::from_utf8(preprocess_svg(source)).unwrap(), expected);
}

#[test]
fn invalid_input_is_returned_unchanged() {
    let not_utf8 = vec![0x3c, 0xff, 0xfe, 0x3e];
    assert_eq!(preprocess_svg(&not_utf8), not_utf8);
    let not_xml = b"<svg><clipPath id=\"c\"><image/></svg>".to_vec();
    assert_eq!(preprocess_svg(&not_xml), not_xml);
    assert_eq!(preprocess_svg(b""), Vec::<u8>::new());
}
