use std::str::FromStr;

use dlg::parser::{character_requirements, Dialog, Line, Section, Speaker};

#[test]
fn test_lines() {
    let raw = r"
            A
            B
            C
            D

            E
            F
        ";

    let actual = Dialog::from_str(&raw).unwrap();

    let expected = Dialog {
        characters: character_requirements(&[]),
        sections: vec![(
            Section::Initial,
            vec![Line::Phrase {
                speaker: Speaker::Narrator,
                lines: vec![
                    "A".to_string(),
                    "B\n            C".to_string(),
                    "D".to_string(),
                    "E\n            F".to_string(),
                ],
            }],
        )],
    };

    assert_eq!(expected, actual);
}
