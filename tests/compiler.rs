use dlg::parser::{character_requirements, Alias, Dialog, Line, ParseError, Section, Speaker, State};
use dlg::lexer::{lex, Token, TokenKind};
use dlg::tokens::{mention_of, semantic_tokens, MentionToken, SemanticToken};

fn chars(s: &str) -> Vec<char> {
    s.chars().collect()
}

fn phrase(speaker: Speaker, lines: &[&str]) -> Line {
    Line::Phrase { speaker, lines: lines.iter().map(|l| l.to_string()).collect() }
}

fn bob(state: &str) -> Speaker {
    Speaker::Character(Alias("bob".to_string()), State::Named(state.to_string()))
}

#[test]
fn scenario_narrator_then_character() {
    let d = Dialog::parse("\n@ Hi\n\n@bob:calm Hello\n").unwrap();
    let expected = Dialog {
        characters: character_requirements(&[("bob", &["calm"])]),
        sections: vec![(
            Section::Initial,
            vec![phrase(Speaker::Narrator, &["Hi"]), phrase(bob("calm"), &["Hello"])],
        )],
    };
    assert_eq!(expected, d);
}

#[test]
fn parse_is_deterministic() {
    let raw = "\n@ Hi\n:menu T\n:opt(#a) A\n#a\n@bob:x there\n";
    assert_eq!(Dialog::parse(raw), Dialog::parse(raw));
}

#[test]
fn paragraphs_of_three_lines() {
    let d = Dialog::parse("A\nB\nC").unwrap();
    assert_eq!(d.sections, vec![(Section::Initial, vec![phrase(Speaker::Narrator, &["A\nB", "C"])])]);
}

#[test]
fn paragraphs_of_four_lines_with_padding() {
    let d = Dialog::parse("  one  \n two\nthree\n  four ").unwrap();
    assert_eq!(
        d.sections,
        vec![(Section::Initial, vec![phrase(Speaker::Narrator, &["one  \n two", "three\n  four"])])]
    );
}

#[test]
fn blank_chunks_are_dropped() {
    let d = Dialog::parse("A\nB\n\n\nC\r\nD\r\n").unwrap();
    assert_eq!(d.sections, vec![(Section::Initial, vec![phrase(Speaker::Narrator, &["A\nB", "C\nD"])])]);
}

#[test]
fn empty_script_gives_empty_dialog() {
    assert_eq!(Dialog::parse("").unwrap(), Dialog { characters: vec![], sections: vec![] });
    assert_eq!(Dialog::parse("\n   \n").unwrap(), Dialog { characters: vec![], sections: vec![] });
}

#[test]
fn same_state_twice_is_required_once() {
    let d = Dialog::parse("\n@bob:calm a\n\n@bob:calm b\n\n@:calm c\n\n@bob d\n").unwrap();
    assert_eq!(d.characters, character_requirements(&[("bob", &["calm"])]));
    assert_eq!(d.sections[0].1.len(), 4);
}

#[test]
fn name_alone_registers_character() {
    let d = Dialog::parse("\n@alice hello\n@bob:sad hi\n").unwrap();
    assert_eq!(d.characters, character_requirements(&[("alice", &[]), ("bob", &["sad"])]));
}

#[test]
fn state_after_narrator_fails() {
    assert_eq!(Dialog::parse("\n@ Hi\n@:x there\n"), Err(ParseError::StateOnNarrator));
    assert_eq!(Dialog::parse("\n@bob hi\n@\n@:x there\n"), Err(ParseError::StateOnNarrator));
    assert_eq!(Dialog::parse("\n@:x at start\n"), Err(ParseError::StateOnNarrator));
}

#[test]
fn text_after_titled_menu_fails() {
    assert_eq!(Dialog::parse("\n:menu Title\n:note\nMore text\n"), Err(ParseError::TextAfterMenu));
}

#[test]
fn option_without_menu_fails() {
    assert_eq!(Dialog::parse("\n:opt(#a) Go\n"), Err(ParseError::OptionWithoutMenu));
}

#[test]
fn menu_inside_menu_fails() {
    assert_eq!(Dialog::parse("\n:menu A\n:menu B\n"), Err(ParseError::MenuAlreadyOpen));
}

#[test]
fn inline_block_fails() {
    assert_eq!(Dialog::parse("\nHello {name}\n"), Err(ParseError::InlineBlock));
}

#[test]
fn mention_with_two_colons_is_malformed() {
    assert_eq!(mention_of(&chars("@a:b:c")), Err(ParseError::MalformedMention));
    assert_eq!(mention_of(&chars("@")), Ok(MentionToken::Narrator));
    assert_eq!(mention_of(&chars("@bob")), Ok(MentionToken::Name("bob".to_string())));
    assert_eq!(mention_of(&chars("@:sad")), Ok(MentionToken::State("sad".to_string())));
    assert_eq!(
        mention_of(&chars("@bob:sad")),
        Ok(MentionToken::NameState("bob".to_string(), "sad".to_string()))
    );
}

#[test]
fn menu_options_keep_declaration_order() {
    let d = Dialog::parse("\n:menu Pick\n:opt(#a) A\n:opt(#b)\n:opt(#c) C\n:other\n:opt(#d) D\n").unwrap();
    match &d.sections[0].1[0] {
        Line::Menu(m) => {
            assert_eq!(m.title, Some("Pick".to_string()));
            let args: Vec<&str> = m.options.iter().map(|o| o.args.as_str()).collect();
            assert_eq!(args, vec!["#a", "#b", "#c", "#d"]);
            assert_eq!(m.options[1].title, None);
            assert_eq!(m.options[2].title, Some("C".to_string()));
        }
        other => panic!("not a menu: {:?}", other),
    }
}

#[test]
fn second_paragraph_completes_menu() {
    let d = Dialog::parse("\n:menu Pick\n:opt(#a) A\n\n\nAfter\nthe\nmenu\n").unwrap();
    assert_eq!(d.sections.len(), 1);
    assert_eq!(d.sections[0].1.len(), 1);
    match &d.sections[0].1[0] {
        Line::Menu(m) => {
            assert_eq!(m.options.len(), 1);
            assert_eq!(m.options[0].title, Some("A".to_string()));
        }
        other => panic!("not a menu: {:?}", other),
    }
}

#[test]
fn link_resets_speaker_and_keeps_empty_sections() {
    let d = Dialog::parse("\n#first\n#second\n@bob:x hi\n#third\nplain\n").unwrap();
    assert_eq!(
        d.sections,
        vec![
            (Section::Initial, vec![]),
            (Section::Named("first".to_string()), vec![]),
            (Section::Named("second".to_string()), vec![phrase(bob("x"), &["hi"])]),
            (Section::Named("third".to_string()), vec![phrase(Speaker::Narrator, &["plain"])]),
        ]
    );
}

#[test]
fn comments_are_dropped_and_end_a_text_run() {
    let d = Dialog::parse("\none // a remark\ntwo\n").unwrap();
    assert_eq!(
        d.sections,
        vec![(Section::Initial, vec![phrase(Speaker::Narrator, &["one"]), phrase(Speaker::Narrator, &["two"])])]
    );
}

#[test]
fn mention_at_start_needs_no_padding() {
    let d = Dialog::parse("@bob:calm Hello").unwrap();
    assert_eq!(d.sections, vec![(Section::Initial, vec![phrase(bob("calm"), &["Hello"])])]);
}

#[test]
fn lexer_covers_input() {
    let s = chars(" @bob:calm Hi #sec :cmd(x y) {b} // c\nz");
    let toks = lex(&s);
    let kinds: Vec<TokenKind> = toks.iter().filter(|t| t.kind != TokenKind::Text).map(|t| t.kind).collect();
    assert_eq!(
        kinds,
        vec![
            TokenKind::Mention,
            TokenKind::Link,
            TokenKind::Command,
            TokenKind::InlineBlock,
            TokenKind::SinglelineComment
        ]
    );
    assert_eq!(toks[0], Token { kind: TokenKind::Mention, start: 0, end: 10 });
    let mut at = 0;
    for t in &toks {
        assert_eq!(t.start, at);
        assert!(t.end > t.start);
        at = t.end;
    }
    assert_eq!(at, s.len());
}

#[test]
fn commands_decode_name_and_args() {
    let toks = semantic_tokens(&chars("\n:opt(#a b) rest\n:menu\n#x")).unwrap();
    assert_eq!(
        toks,
        vec![
            SemanticToken::Command("opt".to_string(), "#a b".to_string()),
            SemanticToken::Text(vec!["rest".to_string()]),
            SemanticToken::Command("menu".to_string(), String::new()),
            SemanticToken::Link("x".to_string()),
        ]
    );
}

#[test]
fn requirements_lookup_by_alias() {
    let d = Dialog::parse("\n@bob:calm a\n@alice b\n").unwrap();
    assert_eq!(
        d.get_user("bob").map(|r| r.states.clone()),
        Some(vec![State::Named("calm".to_string())])
    );
    assert_eq!(d.get_user("alice").map(|r| r.states.len()), Some(0));
    assert_eq!(d.get_user("carol"), None);
}
