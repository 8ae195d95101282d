use dlg::parser::{Alias, Dialog, Menu, MenuOption, Section, Speaker, State};
use dlg::player::{visible_text, wrap_selection, DialogState, InputKind, PlayState};

fn menu(n: usize) -> Menu {
    Menu {
        title: Some("T".to_string()),
        options: (0..n)
            .map(|i| MenuOption { title: Some(format!("o{}", i)), args: format!("#s{}", i) })
            .collect(),
    }
}

fn selection(p: &PlayState) -> usize {
    match p {
        PlayState::WaitingInput(InputKind::MenuChoice { selection, .. }) => *selection,
        other => panic!("not a menu: {:?}", other),
    }
}

#[test]
fn menu_selection_wraps() {
    let mut p = PlayState::WaitingInput(InputKind::MenuChoice { selection: 0, menu: menu(3) });
    p.move_selection(-1);
    assert_eq!(selection(&p), 2);
    p.move_selection(1);
    assert_eq!(selection(&p), 0);
    p.move_selection(1);
    p.move_selection(1);
    p.move_selection(1);
    assert_eq!(selection(&p), 0);
}

#[test]
fn wrap_is_a_floor_modulo() {
    assert_eq!(wrap_selection(0, -1, 3), 2);
    assert_eq!(wrap_selection(2, 1, 3), 0);
    assert_eq!(wrap_selection(1, -7, 3), 0);
    assert_eq!(wrap_selection(0, -4, 3), 2);
    assert_eq!(wrap_selection(2, 10, 3), 0);
    assert_eq!(wrap_selection(5, 0, 3), 2);
    assert_eq!(wrap_selection(0, isize::MIN, 7), ((isize::MIN as i128).rem_euclid(7)) as usize);
    assert_eq!(wrap_selection(usize::MAX, isize::MAX, 1), 0);
}

#[test]
fn scenario_menu_choice_jumps() {
    let d = Dialog::parse("\n:menu Title\n:opt(#a) Go to a\n:opt(#b) Go to b\n\n#a\nIn a\n\n#b\nIn b\n").unwrap();
    assert_eq!(d.sections[0].0, Section::Initial);
    assert_eq!(d.sections[0].1.len(), 1);
    let mut state = d.start();
    let mode = d.resolve(&mut state, &PlayState::Ended);
    assert_eq!(selection(&mode), 0);
    match &mode {
        PlayState::WaitingInput(InputKind::MenuChoice { menu, .. }) => {
            assert_eq!(menu.title, Some("Title".to_string()));
            assert_eq!(menu.options[0].args, "#a");
            assert_eq!(menu.options[1].args, "#b");
        }
        _ => unreachable!(),
    }
    state.advance(&mode);
    assert_eq!(state.cursor.section(), &Section::Named("a".to_string()));
    assert_eq!(state.cursor.line_index(), 0);
    assert_eq!(state.cursor.phrase_index(), 0);
}

#[test]
fn menu_selection_carries_over_frames() {
    let d = Dialog::parse("\n:menu Title\n:opt(#a) A\n:opt(#b) B\n#a\nIn a\n#b\nIn b\n").unwrap();
    let mut state = d.start();
    let mut mode = d.resolve(&mut state, &PlayState::Ended);
    mode.move_selection(1);
    let mode = d.resolve(&mut state, &mode);
    assert_eq!(selection(&mode), 1);
    state.advance(&mode);
    assert_eq!(state.cursor.section(), &Section::Named("b".to_string()));
}

#[test]
fn scenario_animation_through_segments() {
    let d = Dialog::parse("A\nB\n\nC").unwrap();
    let mut state = d.start();
    let mut mode = d.resolve(&mut state, &PlayState::Ended);
    assert_eq!(state.animation.target, 3);
    for _ in 0..2 {
        assert!(matches!(mode, PlayState::Animating));
        state.tick(&mode);
        mode = d.resolve(&mut state, &mode);
    }
    assert!(matches!(mode, PlayState::Animating));
    state.tick(&mode);
    mode = d.resolve(&mut state, &mode);
    assert!(matches!(mode, PlayState::WaitingInput(InputKind::AfterSegment)));
    state.tick(&mode);
    assert_eq!(state.animation.current, 3);
    state.advance(&mode);
    assert_eq!(state.cursor.phrase_index(), 1);
    assert_eq!(state.animation.current, 0);
    mode = d.resolve(&mut state, &mode);
    assert_eq!(state.animation.target, 1);
    assert!(matches!(mode, PlayState::Animating));
    state.tick(&mode);
    mode = d.resolve(&mut state, &mode);
    assert!(matches!(mode, PlayState::WaitingInput(InputKind::AfterLastSegment)));
    state.advance(&mode);
    assert_eq!(state.cursor.line_index(), 1);
    assert_eq!(state.cursor.phrase_index(), 0);
    mode = d.resolve(&mut state, &mode);
    assert!(matches!(mode, PlayState::Ended));
}

#[test]
fn advance_while_animating_reveals_all() {
    let d = Dialog::parse("Hello there").unwrap();
    let mut state = d.start();
    let mode = d.resolve(&mut state, &PlayState::Ended);
    assert_eq!(state.animation.target, 11);
    state.advance(&mode);
    assert_eq!(state.animation.current, 11);
    assert_eq!(state.cursor.line_index(), 0);
    let mode = d.resolve(&mut state, &mode);
    assert!(matches!(mode, PlayState::WaitingInput(InputKind::AfterLastSegment)));
}

#[test]
fn cursor_never_goes_back_without_menu() {
    let d = Dialog::parse("one\n\n\n\ntwo\nthree\n\n\nfour").unwrap();
    let mut state = DialogState::default();
    let mut mode = d.resolve(&mut state, &PlayState::Ended);
    let mut last = 0;
    for i in 0..40 {
        if i % 3 == 0 {
            state.advance(&mode);
        } else {
            state.tick(&mode);
        }
        assert_eq!(state.cursor.section(), &Section::Initial);
        assert!(state.cursor.line_index() >= last);
        last = state.cursor.line_index();
        if !d.is_on_segment(&state.cursor) {
            break;
        }
        mode = d.resolve(&mut state, &mode);
    }
    assert!(matches!(mode, PlayState::Ended));
}

#[test]
fn visible_text_counts_grapheme_clusters() {
    assert_eq!(visible_text("e\u{301}xyz", 1), "e\u{301}");
    assert_eq!(visible_text("héllo", 2), "hé");
    assert_eq!(visible_text("abc", 10), "abc");
    assert_eq!(visible_text("abc", 0), "");
}

#[test]
fn speaker_labels() {
    assert_eq!(Speaker::Narrator.label(), "Narrator");
    assert_eq!(Speaker::Character(Alias("bob".to_string()), State::Default).label(), "bob");
    assert_eq!(
        Speaker::Character(Alias("bob".to_string()), State::Named("calm".to_string())).label(),
        "bob: calm"
    );
}

#[test]
fn cursor_moves() {
    let mut state = DialogState::new();
    state.cursor.next_phrase_index();
    state.cursor.next_line_index();
    assert_eq!((state.cursor.line_index(), state.cursor.phrase_index()), (1, 0));
    state.cursor.set_section("x".to_string());
    assert_eq!(state.cursor.section(), &Section::Named("x".to_string()));
    assert_eq!(state.cursor.line_index(), 0);
    state.cursor.reset();
    assert_eq!(state.cursor.section(), &Section::Initial);
}

#[test]
fn start_is_the_initial_position() {
    let d = Dialog::parse("Hi").unwrap();
    let state = d.start();
    assert_eq!(state.cursor.section(), &Section::Initial);
    assert_eq!((state.cursor.line_index(), state.cursor.phrase_index()), (0, 0));
    assert_eq!(state.animation, dlg::player::Animation { current: 0, target: 0, waited: 0 });
}

#[test]
fn console_steps_through_segments_then_lines() {
    let segments = vec!["a".to_string(), "b".to_string()];
    let mut state = DialogState::new();
    assert_eq!(state.cursor.step_phrase(&segments), Some(&"a".to_string()));
    assert_eq!(state.cursor.step_phrase(&segments), Some(&"b".to_string()));
    assert_eq!(state.cursor.step_phrase(&segments), None);
    assert_eq!((state.cursor.line_index(), state.cursor.phrase_index()), (1, 0));
}

#[test]
fn option_builders() {
    let o = MenuOption::new("Go".to_string()).mark("cave");
    assert_eq!(o, MenuOption { title: Some("Go".to_string()), args: "#cave".to_string() });
}
