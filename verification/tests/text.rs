//! Texts, hints and images.
use sampling2api::anthropic::{
    InputContentBlock, MessageContentInput, MessageParam, MessageRole, ToolChoice,
    ToolResultContentBlock, ToolResultContentInput, ToolResultTextType,
};
use sampling2api::hint::{
    append_hint_to_blocks, append_hint_to_text, append_required_tool_hint, required_tool_name,
};
use sampling2api::image::{
    can_encode, check_image_url, judge_body, judge_head, judge_scheme, media_type_of_content, status_error,
    ResponseHead,
};
use sampling2api::text::{decimal_text, has_prefix, header_text, join, text_before, trim};

#[test]
fn white_space_is_trimmed_as_std_trims_it() {
    let samples = [
        "", " ", "a", " a ", "\t\r\n a b \u{b}\u{c}", "\u{85}a\u{a0}", "\u{1680}\u{2000}x\u{200a}",
        "\u{200b}a\u{200b}", "\u{2028}a\u{2029}", "\u{202f}\u{205f}\u{3000}", "\u{180e}a", "é ",
    ];
    for sample in samples {
        assert_eq!(trim(sample), sample.trim());
    }
    let mut n: u32 = 0;
    while n <= 0x3100 {
        if let Some(c) = char::from_u32(n) {
            assert_eq!(trim(&c.to_string()).is_empty(), c.is_whitespace());
        }
        n += 1;
    }
}

#[test]
fn numbers_are_written_in_decimal() {
    for n in [0, 7, 10, 99, 100, 1234567890, u64::MAX] {
        assert_eq!(decimal_text(n), n.to_string());
    }
}

#[test]
fn parts_are_joined_with_the_separator_between() {
    let parts = vec!["a".to_string(), "".to_string(), "c".to_string()];
    assert_eq!(join(&parts, "--"), "a----c");
    assert_eq!(join(&Vec::new(), "--"), "");
}

#[test]
fn text_before_stop_is_all_without_one() {
    assert_eq!(text_before("image/png; q=1; r", ';'), "image/png");
    assert_eq!(text_before("image/png", ';'), "image/png");
    assert_eq!(text_before(";", ';'), "");
}

#[test]
fn prefixes_are_found() {
    assert!(has_prefix("image/png", "image/"));
    assert!(has_prefix("x", ""));
    assert!(!has_prefix("imag", "image/"));
    assert!(!has_prefix("Image/png", "image/"));
}

#[test]
fn header_is_text_if_it_is_visible_ascii() {
    assert_eq!(header_text(b"a b\tc~").as_deref(), Some("a b\tc~"));
    assert_eq!(header_text(b""), Some(String::new()));
    assert_eq!(header_text(b"\x7f"), None);
    assert_eq!(header_text(b"caf\xc3\xa9"), None);
    assert_eq!(header_text(b"a\n"), None);
}

#[test]
fn hint_goes_behind_text() {
    let mut text = String::new();
    append_hint_to_text(&mut text, "(now)");
    assert_eq!(text, "(now)");
    append_hint_to_text(&mut text, "(again)");
    assert_eq!(text, "(now) (again)");
}

#[test]
fn hint_gets_a_block_where_the_last_is_no_text() {
    let mut blocks = Vec::new();
    append_hint_to_blocks(&mut blocks, "(now)".to_string());
    append_hint_to_blocks(&mut blocks, "(again)".to_string());
    assert_eq!(blocks.len(), 1);
    assert!(matches!(&blocks[0], InputContentBlock::Text { text } if text == "(now) (again)"));
    blocks.push(InputContentBlock::ToolUse {
        id: "a".to_string(),
        name: "b".to_string(),
        input: serde_json::Value::Null,
    });
    append_hint_to_blocks(&mut blocks, "(now)".to_string());
    assert_eq!(blocks.len(), 3);
    assert!(matches!(&blocks[2], InputContentBlock::Text { text } if text == "(now)"));
}

fn results() -> Vec<InputContentBlock> {
    let result = |content: ToolResultContentInput| InputContentBlock::ToolResult {
        tool_use_id: "c".to_string(),
        is_error: None,
        content,
    };
    vec![
        result(ToolResultContentInput::String("a".to_string())),
        result(ToolResultContentInput::Blocks(vec![ToolResultContentBlock {
            block_type: ToolResultTextType::Text,
            text: "a".to_string(),
        }])),
    ]
}

#[test]
fn hint_leaves_other_blocks_as_they_are() {
    let mut blocks = results();
    append_hint_to_blocks(&mut blocks, "(now)".to_string());
    assert_eq!(blocks.len(), 3);
    assert_eq!(format!("{:?}", &blocks[..2]), format!("{:?}", results()));
}

#[test]
fn hint_leaves_other_messages_as_they_are() {
    let given = || {
        vec![
            MessageParam {
                role: MessageRole::User,
                content: MessageContentInput::Blocks(results()),
            },
            says(MessageRole::User, "b"),
            says(MessageRole::Assistant, "c"),
        ]
    };
    let mut messages = given();
    append_required_tool_hint(&mut messages, "t");
    assert_eq!(format!("{:?}", messages[0]), format!("{:?}", given()[0]));
    assert_eq!(text_of(&messages[1]), "b (Please call the t tool.)");
    assert_eq!(format!("{:?}", messages[2]), format!("{:?}", given()[2]));
}

fn says(role: MessageRole, text: &str) -> MessageParam {
    MessageParam { role, content: MessageContentInput::String(text.to_string()) }
}

fn text_of(message: &MessageParam) -> &str {
    match &message.content {
        MessageContentInput::String(text) => text,
        MessageContentInput::Blocks(_) => "",
    }
}

#[test]
fn hint_goes_to_the_last_message_of_the_user() {
    let mut messages = vec![
        says(MessageRole::User, "a"),
        says(MessageRole::User, "b"),
        says(MessageRole::Assistant, "c"),
    ];
    append_required_tool_hint(&mut messages, "t");
    assert_eq!(text_of(&messages[0]), "a");
    assert_eq!(text_of(&messages[1]), "b (Please call the t tool.)");
    assert_eq!(text_of(&messages[2]), "c");

    let mut messages = vec![says(MessageRole::Assistant, "c")];
    append_required_tool_hint(&mut messages, "t");
    assert_eq!(text_of(&messages[0]), "c");
}

#[test]
fn only_a_choice_of_one_tool_requires_it() {
    let one = Some(ToolChoice::Tool { name: "t".to_string() });
    assert_eq!(required_tool_name(&one), Some("t"));
    assert_eq!(required_tool_name(&Some(ToolChoice::Any)), None);
    assert_eq!(required_tool_name(&None), None);
}

#[test]
fn bytes_become_base64() {
    let samples: [(&[u8], &str); 8] = [
        (b"", ""),
        (b"f", "Zg=="),
        (b"fo", "Zm8="),
        (b"foo", "Zm9v"),
        (b"foob", "Zm9vYg=="),
        (b"fooba", "Zm9vYmE="),
        (b"foobar", "Zm9vYmFy"),
        (b"\xfb\xff\xbe", "+/++"),
    ];
    for (bytes, expected) in samples {
        assert_eq!(judge_body("u", Ok(bytes.to_vec())).expect("bytes"), expected);
    }
}

#[test]
fn bytes_can_be_encoded_if_their_text_fits() {
    let most = isize::MAX as usize / 4 * 3;
    assert!(can_encode(0));
    assert!(can_encode(1));
    assert!(can_encode(most));
    assert!(!can_encode(most + 1));
    assert!(!can_encode(usize::MAX));
}

#[test]
fn schemes_are_judged() {
    assert!(check_image_url("http://a.test").is_ok());
    assert!(check_image_url("HTTPS://a.test/x?y=z").is_ok());
    assert!(check_image_url("data:image/png;base64,AA==").is_err());
    assert!(check_image_url("").is_err());
    assert!(judge_scheme("u", Ok("http".to_string())).is_ok());
    assert!(judge_scheme("u", Ok("HTTP".to_string())).is_err());
    assert_eq!(
        judge_scheme("u", Err("why".to_string())).unwrap_err().message(),
        "invalid Anthropic request: invalid image URL 'u': why"
    );
}

#[test]
fn heads_are_judged() {
    assert!(ResponseHead::new(99, None).is_none());
    assert!(ResponseHead::new(1000, None).is_none());
    let head = |status: u16| Ok(ResponseHead::new(status, None).expect("a status"));
    let named = Some("image/png".to_string());
    for status in [200, 201, 299] {
        assert_eq!(judge_head("u", named.clone(), head(status)).expect("image"), "image/png");
    }
    for status in [100, 199, 300, 500, 999] {
        assert!(judge_head("u", named.clone(), head(status)).is_err());
    }
}

#[test]
fn status_is_part_of_the_error() {
    assert_eq!(
        status_error("u", "418 I'm a teapot").message(),
        "invalid Anthropic request: image URL 'u' returned HTTP 418 I'm a teapot"
    );
}

#[test]
fn media_type_is_what_the_content_type_begins_with() {
    let of = |text: &str| media_type_of_content(Some(text.to_string()));
    assert_eq!(of("image/png").as_deref(), Some("image/png"));
    assert_eq!(of(" image/png\t; charset=x").as_deref(), Some("image/png"));
    assert_eq!(of(";image/png"), None);
    assert_eq!(of("   "), None);
    assert_eq!(media_type_of_content(None), None);
}
