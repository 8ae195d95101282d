//! The document builder: a fold over the semantic tokens that tracks the current
//! speaker, section, menu and option, and fills the dialog.
use crate::parser::{
    characters_of, key_from, key_index, keys_unique, lemma_key_bounds, lemma_key_push,
    lemma_key_update, lines_view, sections_of, texts, Alias, Dialog, DialogModel, Line, LineModel,
    Menu, MenuModel, MenuOption, OptionModel, ParseError, Requirements, Section, SectionModel,
    Speaker, SpeakerModel, State, StateModel,
};
use crate::text::chars_of;
use crate::tokens::{
    lemma_semantics_texts_nonempty, semantic_tokens, semantic_views, semantics_of, text_ok,
    texts_nonempty, MentionModel, MentionToken, SemanticModel, SemanticToken,
};
use vstd::prelude::*;

verus! {

/// The builder's state between two tokens.
pub struct BuildModel {
    pub dialog: DialogModel,
    pub speaker: SpeakerModel,
    pub section: SectionModel,
    pub menu: Option<MenuModel>,
    pub option: Option<OptionModel>,
}

pub open spec fn initial_build() -> BuildModel {
    BuildModel {
        dialog: DialogModel { characters: seq![], sections: seq![] },
        speaker: SpeakerModel::Narrator,
        section: SectionModel::Initial,
        menu: None,
        option: None,
    }
}

/// The sections, with an empty entry for `sec` added when it has none.
pub open spec fn with_section(
    secs: Seq<(SectionModel, Seq<LineModel>)>,
    sec: SectionModel,
) -> Seq<(SectionModel, Seq<LineModel>)> {
    if key_index(secs, sec) >= 0 {
        secs
    } else {
        secs.push((sec, seq![]))
    }
}

/// The sections, with `line` appended to the lines of `sec`.
pub open spec fn push_line(
    secs: Seq<(SectionModel, Seq<LineModel>)>,
    sec: SectionModel,
    line: LineModel,
) -> Seq<(SectionModel, Seq<LineModel>)> {
    let e = with_section(secs, sec);
    let k = key_index(e, sec);
    e.update(k, (sec, e[k].1.push(line)))
}

/// The character table, with an empty entry for `a` added when it has none.
pub open spec fn with_character(
    chars: Seq<(Seq<char>, Seq<StateModel>)>,
    a: Seq<char>,
) -> Seq<(Seq<char>, Seq<StateModel>)> {
    if key_index(chars, a) >= 0 {
        chars
    } else {
        chars.push((a, seq![]))
    }
}

/// The character table, with the named state `st` required of `a` once.
pub open spec fn require_state(
    chars: Seq<(Seq<char>, Seq<StateModel>)>,
    a: Seq<char>,
    st: Seq<char>,
) -> Seq<(Seq<char>, Seq<StateModel>)> {
    let c = with_character(chars, a);
    let k = key_index(c, a);
    if c[k].1.contains(StateModel::Named(st)) {
        c
    } else {
        c.update(k, (a, c[k].1.push(StateModel::Named(st))))
    }
}

/// The menu with the pending option, if any, appended.
pub open spec fn menu_with(m: MenuModel, o: Option<OptionModel>) -> MenuModel {
    match o {
        Some(o) => MenuModel { title: m.title, options: m.options.push(o) },
        None => m,
    }
}

/// An open menu, with its pending option, becomes a line of the current section.
pub open spec fn close_menu(b: BuildModel) -> BuildModel {
    match b.menu {
        Some(m) => BuildModel {
            dialog: DialogModel {
                characters: b.dialog.characters,
                sections: push_line(b.dialog.sections, b.section, LineModel::Menu(menu_with(m, b.option))),
            },
            speaker: b.speaker,
            section: b.section,
            menu: None,
            option: None,
        },
        None => BuildModel { option: None, ..b },
    }
}

/// Paragraphs met while a menu is open: the first titles the menu, or else the
/// pending option. A second paragraph with an option pending completes the menu.
pub open spec fn menu_text(b: BuildModel, m: MenuModel, ps: Seq<Seq<char>>) -> Result<
    BuildModel,
    ParseError,
> {
    let titled = if m.title is None {
        Some((MenuModel { title: Some(ps[0]), options: m.options }, b.option))
    } else if let Some(o) = b.option {
        Some((m, Some(OptionModel { title: Some(ps[0]), args: o.args })))
    } else {
        None
    };
    match titled {
        None => Err(ParseError::TextAfterMenu),
        Some((m2, o2)) => {
            let next = BuildModel { menu: Some(m2), option: o2, ..b };
            if ps.len() > 1 && o2 is Some {
                Ok(close_menu(next))
            } else {
                Ok(next)
            }
        },
    }
}

/// The effect of one semantic token. Before it, the current section gets an entry.
pub open spec fn step(b0: BuildModel, t: SemanticModel) -> Result<BuildModel, ParseError> {
    let b = BuildModel {
        dialog: DialogModel {
            characters: b0.dialog.characters,
            sections: with_section(b0.dialog.sections, b0.section),
        },
        ..b0
    };
    let chars = b.dialog.characters;
    match t {
        SemanticModel::Mention(MentionModel::Narrator) => Ok(
            BuildModel { speaker: SpeakerModel::Narrator, ..b },
        ),
        SemanticModel::Mention(MentionModel::Name(n)) => Ok(
            BuildModel {
                dialog: DialogModel {
                    characters: with_character(chars, n),
                    sections: b.dialog.sections,
                },
                speaker: SpeakerModel::Character(n, StateModel::Default),
                ..b
            },
        ),
        SemanticModel::Mention(MentionModel::State(s)) => match b.speaker {
            SpeakerModel::Character(a, _) => Ok(
                BuildModel {
                    dialog: DialogModel {
                        characters: require_state(chars, a, s),
                        sections: b.dialog.sections,
                    },
                    speaker: SpeakerModel::Character(a, StateModel::Named(s)),
                    ..b
                },
            ),
            SpeakerModel::Narrator => Err(ParseError::StateOnNarrator),
        },
        SemanticModel::Mention(MentionModel::NameState(n, s)) => Ok(
            BuildModel {
                dialog: DialogModel {
                    characters: require_state(chars, n, s),
                    sections: b.dialog.sections,
                },
                speaker: SpeakerModel::Character(n, StateModel::Named(s)),
                ..b
            },
        ),
        SemanticModel::Link(name) => Ok(
            BuildModel {
                section: SectionModel::Named(name),
                speaker: SpeakerModel::Narrator,
                ..close_menu(b)
            },
        ),
        SemanticModel::Text(ps) => match b.menu {
            None => Ok(
                BuildModel {
                    dialog: DialogModel {
                        characters: chars,
                        sections: push_line(
                            b.dialog.sections,
                            b.section,
                            LineModel::Phrase { speaker: b.speaker, lines: ps },
                        ),
                    },
                    ..b
                },
            ),
            Some(m) => if ps.len() == 0 {
                Ok(b)
            } else {
                menu_text(b, m, ps)
            },
        },
        SemanticModel::Command(name, args) => if name == "menu"@ {
            if b.menu is Some {
                Err(ParseError::MenuAlreadyOpen)
            } else {
                Ok(BuildModel { menu: Some(MenuModel { title: None, options: seq![] }), ..b })
            }
        } else if name == "opt"@ {
            match b.menu {
                None => Err(ParseError::OptionWithoutMenu),
                Some(m) => Ok(
                    BuildModel {
                        menu: Some(menu_with(m, b.option)),
                        option: Some(OptionModel { title: None, args }),
                        ..b
                    },
                ),
            }
        } else {
            Ok(b)
        },
        SemanticModel::InlineBlock(_) => Err(ParseError::InlineBlock),
    }
}

/// The builder after the tokens `ts`, or the first error.
pub open spec fn run(b: Result<BuildModel, ParseError>, ts: Seq<SemanticModel>) -> Result<
    BuildModel,
    ParseError,
>
    decreases ts.len(),
{
    if ts.len() == 0 {
        b
    } else {
        match b {
            Err(e) => Err(e),
            Ok(b0) => run(step(b0, ts[0]), ts.drop_first()),
        }
    }
}

/// The dialog that the semantic tokens describe; a menu still open at the end is closed.
pub open spec fn build(ts: Seq<SemanticModel>) -> Result<DialogModel, ParseError> {
    match run(Ok(initial_build()), ts) {
        Ok(b) => Ok(close_menu(b).dialog),
        Err(e) => Err(e),
    }
}

pub(crate) fn section_pos(secs: &Vec<(Section, Vec<Line>)>, sec: &Section) -> (r: usize)
    ensures
        r <= secs@.len(),
        key_index(sections_of(secs@), sec@) == if r < secs@.len() {
            r as int
        } else {
            -1
        },
{
    let ghost m = sections_of(secs@);
    let mut j: usize = 0;
    while j < secs.len() && !secs[j].0.same(sec)
        invariant
            j <= secs@.len(),
            m == sections_of(secs@),
            key_index(m, sec@) == key_from(m, sec@, j as int),
        decreases secs@.len() - j,
    {
        j = j + 1;
    }
    j
}

fn character_pos(chars: &Vec<(Alias, Requirements)>, a: &String) -> (r: usize)
    ensures
        r <= chars@.len(),
        key_index(characters_of(chars@), a@) == if r < chars@.len() {
            r as int
        } else {
            -1
        },
{
    let ghost m = characters_of(chars@);
    let mut j: usize = 0;
    while j < chars.len() && !chars[j].0.0.eq(a)
        invariant
            j <= chars@.len(),
            m == characters_of(chars@),
            key_index(m, a@) == key_from(m, a@, j as int),
        decreases chars@.len() - j,
    {
        j = j + 1;
    }
    j
}

fn copy_texts(v: &Vec<String>) -> (r: Vec<String>)
    ensures
        texts(r@) == texts(v@),
{
    let mut r: Vec<String> = Vec::new();
    let mut i: usize = 0;
    while i < v.len()
        invariant
            i <= v@.len(),
            texts(r@) == texts(v@).subrange(0, i as int),
        decreases v@.len() - i,
    {
        let ghost t0 = texts(r@);
        r.push(v[i].clone());
        assert(texts(r@) =~= t0.push(v@[i as int]@));
        i = i + 1;
        assert(texts(r@) =~= texts(v@).subrange(0, i as int));
    }
    assert(texts(v@).subrange(0, v@.len() as int) =~= texts(v@));
    r
}

impl Dialog {
    /// Gives `sec` an entry, empty if it had none; returns its position.
    fn ensure_section(&mut self, sec: &Section) -> (r: usize)
        ensures
            final(self)@.characters == old(self)@.characters,
            final(self)@.sections == with_section(old(self)@.sections, sec@),
            r < final(self)@.sections.len(),
            r == key_index(final(self)@.sections, sec@),
    {
        let k = section_pos(&self.sections, sec);
        if k < self.sections.len() {
            k
        } else {
            let ghost before = self@;
            let none: Vec<Line> = Vec::new();
            assert(lines_view(none@) =~= Seq::<LineModel>::empty());
            self.sections.push((sec.copied(), none));
            proof {
                lemma_key_push(before.sections, (sec@, Seq::<LineModel>::empty()), sec@);
            }
            assert(self@.sections =~= before.sections.push((sec@, Seq::<LineModel>::empty())));
            self.sections.len() - 1
        }
    }

    /// Appends `line` to the lines of `sec`.
    fn push_line(&mut self, sec: &Section, line: Line)
        ensures
            final(self)@.characters == old(self)@.characters,
            final(self)@.sections == push_line(old(self)@.sections, sec@, line@),
    {
        let k = self.ensure_section(sec);
        let ghost mid = self@.sections;
        proof {
            lemma_key_bounds(mid, sec@);
        }
        let (s, mut lines) = self.sections.remove(k);
        let ghost l0 = lines_view(lines@);
        lines.push(line);
        assert(lines_view(lines@) =~= l0.push(line@));
        self.sections.insert(k, (s, lines));
        assert(self@.sections =~= mid.update(k as int, (sec@, mid[k as int].1.push(line@))));
    }

    /// Gives the character `a` an entry, with no requirement if it had none.
    fn ensure_character(&mut self, a: &String) -> (r: usize)
        ensures
            final(self)@.sections == old(self)@.sections,
            final(self)@.characters == with_character(old(self)@.characters, a@),
            r < final(self)@.characters.len(),
            r == key_index(final(self)@.characters, a@),
    {
        let k = character_pos(&self.characters, a);
        if k < self.characters.len() {
            k
        } else {
            let ghost before = self@;
            let req = Requirements { states: Vec::new() };
            assert(req@ =~= Seq::<StateModel>::empty());
            self.characters.push((Alias(a.clone()), req));
            proof {
                lemma_key_push(before.characters, (a@, Seq::<StateModel>::empty()), a@);
            }
            assert(self@.characters =~= before.characters.push((a@, Seq::<StateModel>::empty())));
            self.characters.len() - 1
        }
    }

    /// Records the named state `state` as a requirement of `a`, once.
    fn ensure_character_requirement(&mut self, a: &String, state: &String)
        ensures
            final(self)@.sections == old(self)@.sections,
            final(self)@.characters == require_state(old(self)@.characters, a@, state@),
    {
        let k = self.ensure_character(a);
        let ghost mid = self@.characters;
        proof {
            lemma_key_bounds(mid, a@);
        }
        let wanted = State::Named(state.clone());
        let mut j: usize = 0;
        let mut found = false;
        let n = self.characters[k].1.states.len();
        while j < n && !found
            invariant
                k < self.characters@.len(),
                self@.characters == mid,
                n == self.characters@[k as int].1.states@.len(),
                j <= n,
                wanted@ == StateModel::Named(state@),
                found ==> mid[k as int].1.contains(wanted@),
                !found ==> forall|i: int| 0 <= i < j ==> mid[k as int].1[i] != wanted@,
            decreases n - j + if found { 0int } else { 1int },
        {
            if self.characters[k].1.states[j].same(&wanted) {
                found = true;
                assert(mid[k as int].1[j as int] == wanted@);
            } else {
                j = j + 1;
            }
        }
        if !found {
            let (al, mut req) = self.characters.remove(k);
            let ghost r0 = req@;
            req.states.push(wanted);
            assert(req@ =~= r0.push(StateModel::Named(state@)));
            self.characters.insert(k, (al, req));
            assert(self@.characters =~= mid.update(
                k as int,
                (a@, mid[k as int].1.push(StateModel::Named(state@))),
            ));
        }
    }
}

impl Dialog {
    /// The requirements of the character with alias `alias`, if the dialog has it.
    pub fn get_user(&self, alias: &str) -> (r: Option<&Requirements>)
        ensures
            match r {
                Some(req) => key_index(self@.characters, alias@) >= 0 && self@.characters[key_index(
                    self@.characters,
                    alias@,
                )].1 == req@,
                None => key_index(self@.characters, alias@) == -1,
            },
    {
        let j = character_pos(&self.characters, &alias.to_owned());
        if j < self.characters.len() {
            Some(&self.characters[j].1)
        } else {
            None
        }
    }
}

pub open spec fn menu_model(m: Option<Menu>) -> Option<MenuModel> {
    match m {
        Some(m) => Some(m@),
        None => None,
    }
}

pub open spec fn option_model(o: Option<MenuOption>) -> Option<OptionModel> {
    match o {
        Some(o) => Some(o@),
        None => None,
    }
}

/// The document builder's state.
struct Builder {
    dialog: Dialog,
    speaker: Speaker,
    section: Section,
    menu: Option<Menu>,
    option: Option<MenuOption>,
}

impl View for Builder {
    type V = BuildModel;

    closed spec fn view(&self) -> BuildModel {
        BuildModel {
            dialog: self.dialog@,
            speaker: self.speaker@,
            section: self.section@,
            menu: menu_model(self.menu),
            option: option_model(self.option),
        }
    }
}

impl Builder {
    fn new() -> (r: Builder)
        ensures
            r@ == initial_build(),
    {
        let r = Builder {
            dialog: Dialog { characters: Vec::new(), sections: Vec::new() },
            speaker: Speaker::Narrator,
            section: Section::Initial,
            menu: None,
            option: None,
        };
        assert(r@.dialog.characters =~= Seq::<(Seq<char>, Seq<StateModel>)>::empty());
        assert(r@.dialog.sections =~= Seq::<(SectionModel, Seq<LineModel>)>::empty());
        r
    }

    fn close_menu(&mut self)
        ensures
            final(self)@ == close_menu(old(self)@),
    {
        let menu = self.menu.take();
        let option = self.option.take();
        if let Some(mut m) = menu {
            let ghost m0 = m@;
            if let Some(o) = option {
                m.options.push(o);
                assert(m@.options =~= m0.options.push(o@));
            }
            assert(m@ == menu_with(m0, option_model(option)));
            self.dialog.push_line(&self.section, Line::Menu(m));
        }
    }
}

impl Builder {
    /// Paragraphs met while a menu is open.
    fn menu_text(&mut self, ps: &Vec<String>) -> (r: Result<(), ParseError>)
        requires
            old(self).menu is Some,
            ps@.len() > 0,
        ensures
            match r {
                Ok(()) => menu_text(old(self)@, old(self)@.menu->0, texts(ps@)) == Ok::<
                    BuildModel,
                    ParseError,
                >(final(self)@),
                Err(e) => menu_text(old(self)@, old(self)@.menu->0, texts(ps@)) == Err::<
                    BuildModel,
                    ParseError,
                >(e),
            },
    {
        let ghost b = self@;
        let mut m = self.menu.take().unwrap();
        let first = ps[0].clone();
        assert(first@ == texts(ps@)[0]);
        if m.title.is_none() {
            m.title = Some(first);
        } else if self.option.is_some() {
            let mut o = self.option.take().unwrap();
            o.title = Some(first);
            self.option = Some(o);
        } else {
            return Err(ParseError::TextAfterMenu);
        }
        self.menu = Some(m);
        if ps.len() > 1 && self.option.is_some() {
            self.close_menu();
        }
        Ok(())
    }

    /// The effect of one semantic token.
    fn step(&mut self, t: &SemanticToken) -> (r: Result<(), ParseError>)
        ensures
            match r {
                Ok(()) => step(old(self)@, t@) == Ok::<BuildModel, ParseError>(final(self)@),
                Err(e) => step(old(self)@, t@) == Err::<BuildModel, ParseError>(e),
            },
    {
        self.dialog.ensure_section(&self.section);
        match t {
            SemanticToken::Mention(MentionToken::Narrator) => {
                self.speaker = Speaker::Narrator;
                Ok(())
            },
            SemanticToken::Mention(MentionToken::Name(n)) => {
                self.dialog.ensure_character(n);
                self.speaker = Speaker::Character(Alias(n.clone()), State::Default);
                Ok(())
            },
            SemanticToken::Mention(MentionToken::State(st)) => {
                let alias = match &self.speaker {
                    Speaker::Character(a, _) => a.0.clone(),
                    Speaker::Narrator => {
                        return Err(ParseError::StateOnNarrator);
                    },
                };
                self.dialog.ensure_character_requirement(&alias, st);
                self.speaker = Speaker::Character(Alias(alias), State::Named(st.clone()));
                Ok(())
            },
            SemanticToken::Mention(MentionToken::NameState(n, st)) => {
                self.dialog.ensure_character_requirement(n, st);
                self.speaker = Speaker::Character(Alias(n.clone()), State::Named(st.clone()));
                Ok(())
            },
            SemanticToken::Link(name) => {
                self.close_menu();
                self.section = Section::Named(name.clone());
                self.speaker = Speaker::Narrator;
                Ok(())
            },
            SemanticToken::Text(ps) => {
                if self.menu.is_none() {
                    let line = Line::Phrase { speaker: self.speaker.copied(), lines: copy_texts(ps) };
                    self.dialog.push_line(&self.section, line);
                    Ok(())
                } else if ps.len() == 0 {
                    Ok(())
                } else {
                    self.menu_text(ps)
                }
            },
            SemanticToken::Command(name, args) => {
                if name.eq(&"menu".to_owned()) {
                    if self.menu.is_some() {
                        Err(ParseError::MenuAlreadyOpen)
                    } else {
                        let m = Menu { title: None, options: Vec::new() };
                        assert(m@.options =~= Seq::<OptionModel>::empty());
                        self.menu = Some(m);
                        Ok(())
                    }
                } else if name.eq(&"opt".to_owned()) {
                    if self.menu.is_none() {
                        Err(ParseError::OptionWithoutMenu)
                    } else {
                        let mut m = self.menu.take().unwrap();
                        let ghost m0 = m@;
                        if let Some(o) = self.option.take() {
                            m.options.push(o);
                            assert(m@.options =~= m0.options.push(o@));
                        }
                        self.menu = Some(m);
                        self.option = Some(MenuOption { title: None, args: args.clone() });
                        Ok(())
                    }
                } else {
                    Ok(())
                }
            },
            SemanticToken::InlineBlock(_) => Err(ParseError::InlineBlock),
        }
    }
}

proof fn lemma_run_err(e: ParseError, ts: Seq<SemanticModel>)
    ensures
        run(Err(e), ts) == Err::<BuildModel, ParseError>(e),
    decreases ts.len(),
{
}

impl Dialog {
    /// Builds the dialog that the semantic tokens describe.
    fn parse_semantics(semantics: &Vec<SemanticToken>) -> (r: Result<Dialog, ParseError>)
        ensures
            match r {
                Ok(d) => build(semantic_views(semantics@)) == Ok::<DialogModel, ParseError>(d@),
                Err(e) => build(semantic_views(semantics@)) == Err::<DialogModel, ParseError>(e),
            },
    {
        let ghost ts = semantic_views(semantics@);
        let mut b = Builder::new();
        let n = semantics.len();
        let mut i: usize = 0;
        assert(ts.subrange(0, n as int) =~= ts);
        while i < n
            invariant
                n == semantics@.len(),
                ts == semantic_views(semantics@),
                i <= n,
                run(Ok(initial_build()), ts) == run(Ok(b@), ts.subrange(i as int, n as int)),
            decreases n - i,
        {
            let ghost b0 = b@;
            assert(ts.subrange(i as int, n as int).drop_first() =~= ts.subrange(i + 1, n as int));
            match b.step(&semantics[i]) {
                Err(e) => {
                    proof {
                        lemma_run_err(e, ts.subrange(i + 1, n as int));
                    }
                    return Err(e);
                },
                Ok(()) => {},
            }
            i = i + 1;
        }
        b.close_menu();
        Ok(b.dialog)
    }
}

/// The dialog that a script describes, or why it does not compile.
pub open spec fn parse_model(s: Seq<char>) -> Result<DialogModel, ParseError> {
    match semantics_of(s) {
        Ok(ts) => build(ts),
        Err(e) => Err(e),
    }
}

impl Dialog {
    /// Compiles a script. No I/O; a script that does not compile gives no partial dialog.
    pub fn parse(raw: &str) -> (r: Result<Dialog, ParseError>)
        ensures
            match r {
                Ok(d) => parse_model(raw@) == Ok::<DialogModel, ParseError>(d@) && well_formed(d@),
                Err(e) => parse_model(raw@) == Err::<DialogModel, ParseError>(e),
            },
    {
        proof {
            lemma_semantics_texts_nonempty(raw@);
            if let Ok(ts) = semantics_of(raw@) {
                lemma_build_well_formed(ts);
            }
        }
        let cs = chars_of(raw);
        match semantic_tokens(cs.as_slice()) {
            Err(e) => Err(e),
            Ok(ts) => Dialog::parse_semantics(&ts),
        }
    }
}

impl std::str::FromStr for Dialog {
    type Err = ParseError;

    fn from_str(raw: &str) -> (r: Result<Dialog, ParseError>)
        ensures
            match r {
                Ok(d) => parse_model(raw@) == Ok::<DialogModel, ParseError>(d@) && well_formed(d@),
                Err(e) => parse_model(raw@) == Err::<DialogModel, ParseError>(e),
            },
    {
        Dialog::parse(raw)
    }
}

/// Compiling is deterministic: the same text gives the same dialog, or the same error.
pub proof fn lemma_parse_deterministic(a: Seq<char>, b: Seq<char>)
    requires
        a == b,
    ensures
        parse_model(a) == parse_model(b),
{
}

proof fn lemma_require_found(chars: Seq<(Seq<char>, Seq<StateModel>)>, a: Seq<char>, st: Seq<char>)
    ensures
        key_index(require_state(chars, a, st), a) == key_index(with_character(chars, a), a),
        key_index(require_state(chars, a, st), a) >= 0,
        require_state(chars, a, st)[key_index(require_state(chars, a, st), a)].1.contains(
            StateModel::Named(st),
        ),
{
    lemma_key_push(chars, (a, seq![]), a);
    let c = with_character(chars, a);
    let k = key_index(c, a);
    lemma_key_bounds(c, a);
    if !c[k].1.contains(StateModel::Named(st)) {
        lemma_key_update(c, k, c[k].1.push(StateModel::Named(st)), a);
        assert(c[k].1.push(StateModel::Named(st)).last() == StateModel::Named(st));
    }
}

/// Requirements hold each state once: requiring a state of a character a second
/// time changes nothing.
pub proof fn lemma_require_twice(chars: Seq<(Seq<char>, Seq<StateModel>)>, a: Seq<char>, st: Seq<char>)
    ensures
        require_state(require_state(chars, a, st), a, st) == require_state(chars, a, st),
{
    lemma_require_found(chars, a, st);
}

/// Requiring a state never repeats one in a character's requirements.
pub proof fn lemma_require_no_duplicates(
    chars: Seq<(Seq<char>, Seq<StateModel>)>,
    a: Seq<char>,
    st: Seq<char>,
)
    requires
        forall|i: int| 0 <= i < chars.len() ==> (#[trigger] chars[i]).1.no_duplicates(),
    ensures
        forall|i: int|
            0 <= i < require_state(chars, a, st).len() ==> (#[trigger] require_state(
                chars,
                a,
                st,
            )[i]).1.no_duplicates(),
{
    let c = with_character(chars, a);
    let k = key_index(c, a);
    lemma_key_push(chars, (a, seq![]), a);
    lemma_key_bounds(c, a);
    assert forall|i: int| 0 <= i < c.len() implies (#[trigger] c[i]).1.no_duplicates() by {
        if i < chars.len() {
            assert(c[i] == chars[i]);
        } else {
            assert(c[i].1 =~= Seq::<StateModel>::empty());
        }
    }
    if !c[k].1.contains(StateModel::Named(st)) {
        let r = c.update(k, (a, c[k].1.push(StateModel::Named(st))));
        assert forall|i: int| 0 <= i < r.len() implies (#[trigger] r[i]).1.no_duplicates() by {
            if i == k {
                let p = c[k].1.push(StateModel::Named(st));
                assert forall|x: int, y: int| 0 <= x < p.len() && 0 <= y < p.len() && x != y implies p[x]
                    != p[y] by {
                    if y == p.len() - 1 {
                        assert(p[x] == c[k].1[x]);
                    } else if x == p.len() - 1 {
                        assert(p[y] == c[k].1[y]);
                    } else {
                        assert(p[x] == c[k].1[x] && p[y] == c[k].1[y]);
                    }
                }
            }
        }
    }
}

proof fn lemma_run_concat(b: Result<BuildModel, ParseError>, xs: Seq<SemanticModel>, ys: Seq<SemanticModel>)
    ensures
        run(b, xs + ys) == run(run(b, xs), ys),
    decreases xs.len(),
{
    if xs.len() == 0 {
        assert(xs + ys =~= ys);
    } else {
        match b {
            Err(e) => {
                lemma_run_err(e, xs + ys);
                lemma_run_err(e, xs);
                lemma_run_err(e, ys);
            },
            Ok(b0) => {
                assert((xs + ys).drop_first() =~= xs.drop_first() + ys);
                lemma_run_concat(step(b0, xs[0]), xs.drop_first(), ys);
            },
        }
    }
}

/// A state cannot be set on the narrator: tokens in which `@:x` directly follows `@`
/// never compile.
pub proof fn lemma_state_after_narrator(
    before: Seq<SemanticModel>,
    x: Seq<char>,
    after: Seq<SemanticModel>,
)
    ensures
        build(
            before + seq![
                SemanticModel::Mention(MentionModel::Narrator),
                SemanticModel::Mention(MentionModel::State(x)),
            ] + after,
        ) is Err,
{
    let pair = seq![
        SemanticModel::Mention(MentionModel::Narrator),
        SemanticModel::Mention(MentionModel::State(x)),
    ];
    lemma_run_concat(Ok(initial_build()), before + pair, after);
    lemma_run_concat(Ok(initial_build()), before, pair);
    let mid = run(Ok(initial_build()), before + pair);
    match run(Ok(initial_build()), before) {
        Err(e) => {
            lemma_run_err(e, pair);
        },
        Ok(b) => {
            assert(pair.drop_first().drop_first() =~= Seq::<SemanticModel>::empty());
            let b1 = step(b, pair[0])->Ok_0;
            assert(b1.speaker == SpeakerModel::Narrator);
            assert(pair.drop_first()[0] == SemanticModel::Mention(MentionModel::State(x)));
            assert(step(b1, pair.drop_first()[0]) == Err::<BuildModel, ParseError>(
                ParseError::StateOnNarrator,
            ));
            assert(pair.len() == 2 && pair[0] == SemanticModel::Mention(MentionModel::Narrator));
            assert(step(b, pair[0]) is Ok);
            assert(run(Ok(b), pair) == run(Ok(b1), pair.drop_first()));
            assert(run(Ok(b1), pair.drop_first()) == run(
                step(b1, pair.drop_first()[0]),
                pair.drop_first().drop_first(),
            ));
            assert(mid == Err::<BuildModel, ParseError>(ParseError::StateOnNarrator));
        },
    }
    match mid {
        Err(e) => {
            lemma_run_err(e, after);
        },
        Ok(_) => {},
    }
}

/// The jump arguments of an open menu's options, the pending one last.
pub open spec fn pending_args(b: BuildModel) -> Seq<Seq<char>> {
    match b.menu {
        Some(m) => m.options.map_values(|o: OptionModel| o.args) + match b.option {
            Some(o) => seq![o.args],
            None => seq![],
        },
        None => seq![],
    }
}

/// The arguments of the `:opt` commands among the tokens, in order.
pub open spec fn declared_options(ts: Seq<SemanticModel>) -> Seq<Seq<char>>
    decreases ts.len(),
{
    if ts.len() == 0 {
        seq![]
    } else {
        let rest = declared_options(ts.drop_first());
        match ts[0] {
            SemanticModel::Command(name, args) => if name == "opt"@ {
                seq![args] + rest
            } else {
                rest
            },
            _ => rest,
        }
    }
}

proof fn lemma_step_keeps_options(b: BuildModel, t: SemanticModel)
    requires
        b.menu is Some,
        step(b, t) is Ok,
        step(b, t)->Ok_0.menu is Some,
    ensures
        pending_args(step(b, t)->Ok_0) == pending_args(b) + declared_options(seq![t]),
{
    let n = step(b, t)->Ok_0;
    let m = b.menu->Some_0;
    assert(seq![t].drop_first() =~= Seq::<SemanticModel>::empty());
    assert(seq![t].len() == 1 && seq![t][0] == t);
    assert(declared_options(Seq::<SemanticModel>::empty()) == Seq::<Seq<char>>::empty());
    match t {
        SemanticModel::Command(name, args) => {
            if name == "opt"@ {
                let m2 = menu_with(m, b.option);
                match b.option {
                    Some(o) => {
                        assert(m2.options.map_values(|o: OptionModel| o.args) =~= m.options.map_values(
                            |o: OptionModel| o.args,
                        ).push(o.args));
                    },
                    None => {},
                }
                assert(pending_args(n) =~= pending_args(b) + seq![args]);
                assert(declared_options(seq![t]) =~= seq![args]);
            } else {
                assert(pending_args(n) =~= pending_args(b));
                assert(declared_options(seq![t]) =~= Seq::<Seq<char>>::empty());
            }
        },
        SemanticModel::Text(ps) => {
            if ps.len() > 0 {
                assert(n.menu->Some_0.options =~= m.options);
            }
            assert(pending_args(n) =~= pending_args(b));
            assert(declared_options(seq![t]) =~= Seq::<Seq<char>>::empty());
        },
        _ => {
            assert(pending_args(n) =~= pending_args(b));
            assert(declared_options(seq![t]) =~= Seq::<Seq<char>>::empty());
        },
    }
}

/// Menu options keep their order of declaration: while a menu stays open, text and
/// mentions never reorder or drop its options, and each `:opt` adds one at the end.
pub proof fn lemma_menu_options_in_order(b: BuildModel, ts: Seq<SemanticModel>)
    requires
        b.menu is Some,
        forall|i: int|
            0 <= i <= ts.len() ==> #[trigger] run(Ok(b), ts.take(i)) is Ok && run(
                Ok(b),
                ts.take(i),
            )->Ok_0.menu is Some,
    ensures
        pending_args(run(Ok(b), ts)->Ok_0) == pending_args(b) + declared_options(ts),
    decreases ts.len(),
{
    assert(ts.take(ts.len() as int) =~= ts);
    if ts.len() == 0 {
        assert(pending_args(b) + declared_options(ts) =~= pending_args(b));
    } else {
        let first = ts.take(1);
        assert(first.drop_first() =~= Seq::<SemanticModel>::empty());
        assert(first[0] == ts[0]);
        assert(run(Ok(b), first) == run(step(b, ts[0]), first.drop_first()));
        assert(run(Ok(b), first) == step(b, ts[0]));
        let b1 = step(b, ts[0])->Ok_0;
        let rest = ts.drop_first();
        assert forall|i: int| 0 <= i <= rest.len() implies #[trigger] run(Ok(b1), rest.take(i)) is Ok
            && run(Ok(b1), rest.take(i))->Ok_0.menu is Some by {
            assert(ts.take(i + 1).drop_first() =~= rest.take(i));
            assert(ts.take(i + 1)[0] == ts[0]);
            assert(run(Ok(b), ts.take(i + 1)) == run(Ok(b1), rest.take(i)));
        }
        lemma_menu_options_in_order(b1, rest);
        lemma_step_keeps_options(b, ts[0]);
        assert(seq![ts[0]].drop_first() =~= Seq::<SemanticModel>::empty());
        assert(declared_options(ts) =~= declared_options(seq![ts[0]]) + declared_options(rest));
    }
}

/// No character requires a state twice.
pub open spec fn states_distinct(chars: Seq<(Seq<char>, Seq<StateModel>)>) -> bool {
    forall|i: int| 0 <= i < chars.len() ==> (#[trigger] chars[i]).1.no_duplicates()
}

/// A line that can be shown: a phrase has at least one segment.
pub open spec fn line_ok(l: LineModel) -> bool {
    l matches LineModel::Phrase { lines, .. } ==> lines.len() > 0
}

/// Every phrase of every section has at least one segment.
pub open spec fn phrases_nonempty(secs: Seq<(SectionModel, Seq<LineModel>)>) -> bool {
    forall|k: int, j: int|
        0 <= k < secs.len() && 0 <= j < secs[k].1.len() ==> line_ok(#[trigger] secs[k].1[j])
}

/// A dialog's tables are consistent: no alias and no section appears twice, no
/// character requires a state twice, and every phrase has a segment to show.
pub open spec fn well_formed(d: DialogModel) -> bool {
    &&& keys_unique(d.characters)
    &&& keys_unique(d.sections)
    &&& states_distinct(d.characters)
    &&& phrases_nonempty(d.sections)
}

proof fn lemma_key_absent<K, V>(m: Seq<(K, V)>, k: K, i: int)
    requires
        0 <= i,
        key_from(m, k, i) == -1,
    ensures
        forall|j: int| i <= j < m.len() ==> (#[trigger] m[j]).0 != k,
    decreases m.len() - i,
{
    if i < m.len() {
        lemma_key_absent(m, k, i + 1);
    }
}

proof fn lemma_unique_push<K, V>(m: Seq<(K, V)>, k: K, v: V)
    requires
        keys_unique(m),
        key_index(m, k) == -1,
    ensures
        keys_unique(m.push((k, v))),
{
    lemma_key_absent(m, k, 0);
    let p = m.push((k, v));
    assert forall|i: int, j: int| 0 <= i < j < p.len() implies p[i].0 != p[j].0 by {
        if j < m.len() {
            assert(p[i] == m[i] && p[j] == m[j]);
        } else {
            assert(p[i] == m[i]);
        }
    }
}

proof fn lemma_unique_update<K, V>(m: Seq<(K, V)>, j: int, v: V)
    requires
        keys_unique(m),
        0 <= j < m.len(),
    ensures
        keys_unique(m.update(j, (m[j].0, v))),
{
    let p = m.update(j, (m[j].0, v));
    assert forall|a: int, b: int| 0 <= a < b < p.len() implies p[a].0 != p[b].0 by {
        assert(p[a].0 == m[a].0 && p[b].0 == m[b].0);
    }
}

proof fn lemma_push_line_unique(
    secs: Seq<(SectionModel, Seq<LineModel>)>,
    sec: SectionModel,
    line: LineModel,
)
    requires
        keys_unique(secs),
        phrases_nonempty(secs),
        line_ok(line),
    ensures
        keys_unique(with_section(secs, sec)),
        keys_unique(push_line(secs, sec, line)),
        phrases_nonempty(with_section(secs, sec)),
        phrases_nonempty(push_line(secs, sec, line)),
{
    if key_index(secs, sec) < 0 {
        lemma_key_bounds(secs, sec);
        lemma_unique_push(secs, sec, seq![]);
    }
    let e = with_section(secs, sec);
    assert forall|k: int, j: int| 0 <= k < e.len() && 0 <= j < e[k].1.len() implies line_ok(
        #[trigger] e[k].1[j],
    ) by {
        assert(k < secs.len());
        assert(e[k] == secs[k]);
    }
    lemma_key_push(secs, (sec, seq![]), sec);
    lemma_key_bounds(e, sec);
    let i = key_index(e, sec);
    lemma_unique_update(e, i, e[i].1.push(line));
    let p = push_line(secs, sec, line);
    assert forall|k: int, j: int| 0 <= k < p.len() && 0 <= j < p[k].1.len() implies line_ok(
        #[trigger] p[k].1[j],
    ) by {
        if k == i {
            if j < e[i].1.len() {
                assert(p[k].1[j] == e[i].1[j]);
            }
        } else {
            assert(p[k] == e[k]);
        }
    }
}

proof fn lemma_require_unique(chars: Seq<(Seq<char>, Seq<StateModel>)>, a: Seq<char>, st: Seq<char>)
    requires
        keys_unique(chars),
        forall|i: int| 0 <= i < chars.len() ==> (#[trigger] chars[i]).1.no_duplicates(),
    ensures
        keys_unique(with_character(chars, a)),
        states_distinct(with_character(chars, a)),
        keys_unique(require_state(chars, a, st)),
        states_distinct(require_state(chars, a, st)),
{
    let c = with_character(chars, a);
    if key_index(chars, a) < 0 {
        lemma_key_bounds(chars, a);
        lemma_unique_push(chars, a, seq![]);
    }
    assert forall|i: int| 0 <= i < c.len() implies (#[trigger] c[i]).1.no_duplicates() by {
        if i < chars.len() {
            assert(c[i] == chars[i]);
        } else {
            assert(c[i].1 =~= Seq::<StateModel>::empty());
        }
    }
    lemma_key_push(chars, (a, seq![]), a);
    lemma_key_bounds(c, a);
    let k = key_index(c, a);
    if !c[k].1.contains(StateModel::Named(st)) {
        lemma_unique_update(c, k, c[k].1.push(StateModel::Named(st)));
    }
    lemma_require_no_duplicates(chars, a, st);
}

proof fn lemma_close_menu_well_formed(b: BuildModel)
    requires
        well_formed(b.dialog),
    ensures
        well_formed(close_menu(b).dialog),
{
    if let Some(m) = b.menu {
        lemma_push_line_unique(b.dialog.sections, b.section, LineModel::Menu(menu_with(m, b.option)));
    }
}

proof fn lemma_step_well_formed(b: BuildModel, t: SemanticModel)
    requires
        well_formed(b.dialog),
        step(b, t) is Ok,
        text_ok(t),
    ensures
        well_formed(step(b, t)->Ok_0.dialog),
{
    let empty_menu = LineModel::Menu(MenuModel { title: None, options: seq![] });
    lemma_push_line_unique(b.dialog.sections, b.section, empty_menu);
    let secs = with_section(b.dialog.sections, b.section);
    let b1 = BuildModel { dialog: DialogModel { characters: b.dialog.characters, sections: secs }, ..b };
    assert(well_formed(b1.dialog));
    let chars = b.dialog.characters;
    match t {
        SemanticModel::Mention(MentionModel::Name(n)) => {
            lemma_require_unique(chars, n, seq![]);
        },
        SemanticModel::Mention(MentionModel::State(x)) => {
            if let SpeakerModel::Character(a, _) = b.speaker {
                lemma_require_unique(chars, a, x);
            }
        },
        SemanticModel::Mention(MentionModel::NameState(n, x)) => {
            lemma_require_unique(chars, n, x);
        },
        SemanticModel::Link(_) => {
            lemma_close_menu_well_formed(b1);
        },
        SemanticModel::Text(ps) => {
            match b.menu {
                None => {
                    let phrase = LineModel::Phrase { speaker: b.speaker, lines: ps };
                    lemma_push_line_unique(secs, b.section, phrase);
                    lemma_push_line_unique(b.dialog.sections, b.section, phrase);
                },
                Some(m) => {
                    if ps.len() > 0 {
                        let titled = if m.title is None {
                            (MenuModel { title: Some(ps[0]), options: m.options }, b.option)
                        } else {
                            let o = match b.option {
                                Some(o) => Some(OptionModel { title: Some(ps[0]), args: o.args }),
                                None => None,
                            };
                            (m, o)
                        };
                        let next = BuildModel { menu: Some(titled.0), option: titled.1, ..b1 };
                        lemma_close_menu_well_formed(next);
                    }
                },
            }
        },
        _ => {},
    }
}

proof fn lemma_run_well_formed(b: Result<BuildModel, ParseError>, ts: Seq<SemanticModel>)
    requires
        b is Ok ==> well_formed(b->Ok_0.dialog),
        texts_nonempty(ts),
    ensures
        run(b, ts) is Ok ==> well_formed(run(b, ts)->Ok_0.dialog),
    decreases ts.len(),
{
    if ts.len() > 0 {
        if let Ok(b0) = b {
            if step(b0, ts[0]) is Ok {
                lemma_step_well_formed(b0, ts[0]);
            }
            assert forall|i: int| 0 <= i < ts.drop_first().len() implies text_ok(
                #[trigger] ts.drop_first()[i],
            ) by {
                assert(ts.drop_first()[i] == ts[i + 1]);
            }
            lemma_run_well_formed(step(b0, ts[0]), ts.drop_first());
        }
    }
}

/// Every dialog built from paragraph tokens that are not empty is well formed.
pub proof fn lemma_build_well_formed(ts: Seq<SemanticModel>)
    requires
        texts_nonempty(ts),
    ensures
        build(ts) is Ok ==> well_formed(build(ts)->Ok_0),
{
    let init = initial_build();
    assert(well_formed(init.dialog));
    lemma_run_well_formed(Ok(init), ts);
    if let Ok(b) = run(Ok(init), ts) {
        lemma_close_menu_well_formed(b);
    }
}

} // verus!
