use std::str::FromStr;

use dlg::parser::{character_requirements, Alias, Dialog, Line, Section, Speaker, State};

#[test]
fn test_mentions() {
    let raw = r"
            @
            narrator

            @ narrator

            @bob bob
            
            @:calm calm bob

            @ narrator
        ";

    let actual = Dialog::from_str(&raw).unwrap();

    let expected = Dialog {
        characters: character_requirements(&[("bob", &["calm"])]),
        sections: vec![(
            Section::Initial,
            vec![
                Line::Phrase {
                    speaker: Speaker::Narrator,
                    lines: vec!["narrator".to_string()],
                },
                Line::Phrase {
                    speaker: Speaker::Narrator,
                    lines: vec!["narrator".to_string()],
                },
                Line::Phrase {
                    speaker: Speaker::Character(Alias("bob".to_string()), State::Default),
                    lines: vec!["bob".to_string()],
                },
                Line::Phrase {
                    speaker: Speaker::Character(
                        Alias("bob".to_string()),
                        State::Named("calm".to_string()),
                    ),
                    lines: vec!["calm bob".to_string()],
                },
                Line::Phrase {
                    speaker: Speaker::Narrator,
                    lines: vec!["narrator".to_string()],
                },
            ],
        )],
    };

    assert_eq!(expected, actual);
}
