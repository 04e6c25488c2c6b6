use thesamo::extractor::{extract_body_from_tags, replace_in_tags, FileTags};
use thesamo::Error;

fn tags() -> FileTags {
    FileTags::new(b"%%>".to_vec(), b"<%%".to_vec())
}

#[test]
fn should_extract_body_from_tags() {
    let open_tag = "%%>";
    let close_tag = "<%%";
    let test_file_content = r#"
   some content that should be ommited
%%>
the part to be extracted
    with      some     spaces

and ending.
<%%

and a tail of the file
"#;

    let expected = r#"
the part to be extracted
    with      some     spaces

and ending.
"#
    .to_owned();

    let tags = FileTags::new(open_tag.as_bytes().to_vec(), close_tag.as_bytes().to_vec());
    let extra = extract_body_from_tags(test_file_content.as_bytes(), &tags);
    assert!(extra == vec![expected.into_bytes()])
}

#[test]
fn should_extract_all_bodies_from_tags() {
    let open_tag = "%%>";
    let close_tag = "<%%";
    let test_file_content = r#"
some content that should be ommited
%%>
the part to be extracted
    with      some     spaces

and ending.
<%%

some other config items

%%>
interesting
part of file
<%%

Tail of file
"#;

    let expected1 = r#"
the part to be extracted
    with      some     spaces

and ending.
"#
    .to_owned();

    let expected2 = r#"
interesting
part of file
"#
    .to_owned();

    let tags = FileTags::new(open_tag.as_bytes().to_vec(), close_tag.as_bytes().to_vec());
    let extra = extract_body_from_tags(test_file_content.as_bytes(), &tags);
    println!("{:?}", extra);
    assert!(extra == vec![expected1.into_bytes(), expected2.into_bytes()])
}

#[test]
fn should_replace_all_tag_content_with_appropriate_replacement() {
    let open_tag = "%%>";
    let close_tag = "<%%";
    let test_file_content = r#"
some content that should be ommited
%%>
the part to be extracted
    with      some     spaces

and ending.
<%%

some other config items

%%>
interesting
part of file
<%%

Tail of file
"#;

    let expected = r#"
some content that should be ommited
%%>
just this
<%%

some other config items

%%>
and this
<%%

Tail of file
"#
    .to_owned();
    let replacement1 = "\njust this\n".to_owned().into_bytes();
    let replacement2 = "\nand this\n".to_owned().into_bytes();

    let tags = FileTags::new(open_tag.as_bytes().to_vec(), close_tag.as_bytes().to_vec());

    let result = replace_in_tags(
        test_file_content.as_bytes(),
        &[replacement1, replacement2],
        &tags,
    );

    let res = result.unwrap();

    println!("{}", String::from_utf8(res.clone()).unwrap());
    assert_eq!(expected.into_bytes(), res);
}

#[test]
fn extraction_keeps_order_of_appearance() {
    let content = b"x%%>A<%%y%%>B<%%z";
    let extra = extract_body_from_tags(content, &tags());
    assert_eq!(extra, vec![b"A".to_vec(), b"B".to_vec()]);
}

#[test]
fn substitute_of_extracted_blocks_is_identity() {
    let content = "head\n%%>\none\n<%%\nmiddle\n%%>\ntwo\n<%%\ntail";
    let blocks = extract_body_from_tags(content.as_bytes(), &tags());
    let restored = replace_in_tags(content.as_bytes(), &blocks, &tags()).unwrap();
    assert_eq!(restored, content.as_bytes().to_vec());
}

#[test]
fn end_to_end_single_block_replacement() {
    let content = "head\n%%>\nOLD\n<%%\ntail";
    let replaced =
        replace_in_tags(content.as_bytes(), &[b"\nNEW\n".to_vec()], &tags()).unwrap();
    assert_eq!(replaced, "head\n%%>\nNEW\n<%%\ntail".as_bytes().to_vec());
}

#[test]
fn unmatched_open_tag_is_a_mismatch_error() {
    let content = "head\n%%>\ndangling body with no close";
    let result = replace_in_tags(content.as_bytes(), &[b"NEW".to_vec()], &tags());
    assert_eq!(result, Err(Error::TagMismatch));
}

#[test]
fn too_few_replacements_is_a_count_error() {
    let content = "a%%>one<%%b%%>two<%%c";
    let result = replace_in_tags(content.as_bytes(), &[b"X".to_vec()], &tags());
    assert_eq!(result, Err(Error::ReplacementCount));
}

#[test]
fn content_without_tags_extracts_nothing_and_substitutes_to_itself() {
    let content = b"no markers anywhere".to_vec();
    let extra = extract_body_from_tags(&content, &tags());
    assert!(extra.is_empty());
    let restored = replace_in_tags(&content, &extra, &tags()).unwrap();
    assert_eq!(restored, content);
}

#[test]
fn unclosed_trailing_tag_extracts_remainder() {
    let content = b"lead%%>rest of the file";
    let extra = extract_body_from_tags(content, &tags());
    assert_eq!(extra, vec![b"rest of the file".to_vec()]);
}
