use std::str::FromStr;

use dlg::parser::{character_requirements, Alias, Dialog, Line, Section, Speaker, State};

#[test]
fn test_all_dialog_features() {
    let raw = r"
            @ Narrator's text

            @bob Bob without state

            @:state_1 Bob with state_1

            @bob:state_2 Bob with state_2
        ";

    let actual = Dialog::from_str(raw).unwrap();

    let expected = Dialog {
        characters: character_requirements(&[("bob", &["state_1", "state_2"])]),
        sections: vec![(
            Section::Initial,
            vec![
                Line::Phrase {
                    speaker: Speaker::Narrator,
                    lines: vec!["Narrator's text".to_owned()],
                },
                Line::Phrase {
                    speaker: Speaker::Character(Alias("bob".to_owned()), State::Default),
                    lines: vec!["Bob without state".to_owned()],
                },
                Line::Phrase {
                    speaker: Speaker::Character(
                        Alias("bob".to_owned()),
                        State::Named("state_1".to_owned()),
                    ),
                    lines: vec!["Bob with state_1".to_owned()],
                },
                Line::Phrase {
                    speaker: Speaker::Character(
                        Alias("bob".to_owned()),
                        State::Named("state_2".to_owned()),
                    ),
                    lines: vec!["Bob with state_2".to_owned()],
                },
            ],
        )],
    };

    assert_eq!(expected, actual);
}
