//! The dialog document: characters with their required states, and the lines
//! of each section.
use vstd::prelude::*;

verus! {

/// Character alias in dialog that maps to a real character.
#[derive(PartialEq, Eq, Hash, Debug, Clone)]
pub struct Alias(pub String);

/// State of a character.
#[derive(PartialEq, Eq, Hash, Debug, Clone)]
pub enum State {
    /// Default state
    Default,
    /// Named state
    Named(String),
}

/// Requirements of a character in a dialog: the states that the dialog uses.
#[derive(PartialEq, Eq, Debug, Clone, Default)]
pub struct Requirements {
    /// Required states
    pub states: Vec<State>,
}

/// Speaker in a dialog: the narrator, or a character with an alias and a state.
#[derive(PartialEq, Eq, Hash, Debug, Clone)]
pub enum Speaker {
    /// Narrator speaks
    Narrator,
    /// Character speaks
    Character(Alias, State),
}

/// Menu in a dialog: a title and its options.
#[derive(PartialEq, Eq, Hash, Debug, Clone)]
pub struct Menu {
    /// Menu title
    pub title: Option<String>,
    /// Menu options, in the order of their declaration
    pub options: Vec<MenuOption>,
}

/// Menu option.
#[derive(PartialEq, Eq, Hash, Debug, Clone)]
pub struct MenuOption {
    /// Option title
    pub title: Option<String>,
    /// Option arguments: `#<section>`, the section that choosing it jumps to
    pub args: String,
}

/// Line in a dialog.
#[derive(PartialEq, Eq, Hash, Debug, Clone)]
pub enum Line {
    /// A character's phrase.
    Phrase {
        /// The one who utters the phrase
        speaker: Speaker,
        /// The parts of the phrase, presented one after another so as not to show
        /// too much text at a time
        lines: Vec<String>,
    },
    /// Menu with options
    Menu(Menu),
}

/// Section of a dialog.
#[derive(PartialEq, Eq, Hash, Debug, Clone)]
pub enum Section {
    /// Initial section: the dialog starts from it
    Initial,
    /// Named section
    Named(String),
}

/// A compiled dialog. Each alias and each section appears at most once, in the
/// order in which the script first used it.
#[derive(PartialEq, Eq, Debug, Clone, Default)]
pub struct Dialog {
    pub characters: Vec<(Alias, Requirements)>,
    pub sections: Vec<(Section, Vec<Line>)>,
}

/// Why a script does not compile.
#[derive(PartialEq, Eq, Debug, Clone, Copy, Structural)]
pub enum ParseError {
    /// `@:state` while the narrator speaks
    StateOnNarrator,
    /// text after a complete menu header or option
    TextAfterMenu,
    /// `:opt` with no open menu
    OptionWithoutMenu,
    /// `:menu` while a menu is open
    MenuAlreadyOpen,
    /// `{...}`: inline blocks are not supported
    InlineBlock,
    /// a mention with more than one `:`
    MalformedMention,
}

/// The value of a `State`, with strings as character sequences.
pub enum StateModel {
    Default,
    Named(Seq<char>),
}

/// The value of a `Speaker`.
pub enum SpeakerModel {
    Narrator,
    Character(Seq<char>, StateModel),
}

/// The value of a `MenuOption`.
pub struct OptionModel {
    pub title: Option<Seq<char>>,
    pub args: Seq<char>,
}

/// The value of a `Menu`.
pub struct MenuModel {
    pub title: Option<Seq<char>>,
    pub options: Seq<OptionModel>,
}

/// The value of a `Line`.
pub enum LineModel {
    Phrase { speaker: SpeakerModel, lines: Seq<Seq<char>> },
    Menu(MenuModel),
}

/// The value of a `Section`.
pub enum SectionModel {
    Initial,
    Named(Seq<char>),
}

/// The value of a `Dialog`: its two tables, in order.
pub struct DialogModel {
    pub characters: Seq<(Seq<char>, Seq<StateModel>)>,
    pub sections: Seq<(SectionModel, Seq<LineModel>)>,
}

/// The characters of an optional string.
pub open spec fn opt_text(t: Option<String>) -> Option<Seq<char>> {
    match t {
        Some(s) => Some(s@),
        None => None,
    }
}

/// The characters of each string.
pub open spec fn texts(v: Seq<String>) -> Seq<Seq<char>> {
    v.map_values(|s: String| s@)
}

impl View for Alias {
    type V = Seq<char>;

    open spec fn view(&self) -> Seq<char> {
        self.0@
    }
}

impl View for State {
    type V = StateModel;

    open spec fn view(&self) -> StateModel {
        match self {
            State::Default => StateModel::Default,
            State::Named(s) => StateModel::Named(s@),
        }
    }
}

impl View for Requirements {
    type V = Seq<StateModel>;

    open spec fn view(&self) -> Seq<StateModel> {
        self.states@.map_values(|s: State| s@)
    }
}

impl View for Speaker {
    type V = SpeakerModel;

    open spec fn view(&self) -> SpeakerModel {
        match self {
            Speaker::Narrator => SpeakerModel::Narrator,
            Speaker::Character(a, s) => SpeakerModel::Character(a@, s@),
        }
    }
}

impl View for MenuOption {
    type V = OptionModel;

    open spec fn view(&self) -> OptionModel {
        OptionModel { title: opt_text(self.title), args: self.args@ }
    }
}

impl View for Menu {
    type V = MenuModel;

    open spec fn view(&self) -> MenuModel {
        MenuModel {
            title: opt_text(self.title),
            options: self.options@.map_values(|o: MenuOption| o@),
        }
    }
}

impl View for Line {
    type V = LineModel;

    open spec fn view(&self) -> LineModel {
        match self {
            Line::Phrase { speaker, lines } => LineModel::Phrase {
                speaker: speaker@,
                lines: texts(lines@),
            },
            Line::Menu(m) => LineModel::Menu(m@),
        }
    }
}

impl View for Section {
    type V = SectionModel;

    open spec fn view(&self) -> SectionModel {
        match self {
            Section::Initial => SectionModel::Initial,
            Section::Named(s) => SectionModel::Named(s@),
        }
    }
}

/// The value of each line.
pub open spec fn lines_view(v: Seq<Line>) -> Seq<LineModel> {
    v.map_values(|l: Line| l@)
}

/// The character table as aliases and the states each requires.
pub open spec fn characters_of(v: Seq<(Alias, Requirements)>) -> Seq<(Seq<char>, Seq<StateModel>)> {
    v.map_values(|e: (Alias, Requirements)| (e.0@, e.1@))
}

/// The sections as their values and the values of their lines.
pub open spec fn sections_of(v: Seq<(Section, Vec<Line>)>) -> Seq<(SectionModel, Seq<LineModel>)> {
    v.map_values(|e: (Section, Vec<Line>)| (e.0@, lines_view(e.1@)))
}

impl View for Dialog {
    type V = DialogModel;

    open spec fn view(&self) -> DialogModel {
        DialogModel {
            characters: characters_of(self.characters@),
            sections: sections_of(self.sections@),
        }
    }
}

/// The position of the first entry keyed `k` at or after `i`; `-1` when there is none.
pub open spec fn key_from<K, V>(m: Seq<(K, V)>, k: K, i: int) -> int
    decreases m.len() - i,
{
    if i < 0 || i >= m.len() {
        -1
    } else if m[i].0 == k {
        i
    } else {
        key_from(m, k, i + 1)
    }
}

/// The position of the entry keyed `k`; `-1` when there is none.
pub open spec fn key_index<K, V>(m: Seq<(K, V)>, k: K) -> int {
    key_from(m, k, 0)
}

proof fn lemma_key_from_push<K, V>(m: Seq<(K, V)>, x: (K, V), k: K, i: int)
    requires
        0 <= i <= m.len(),
    ensures
        key_from(m.push(x), k, i) == if key_from(m, k, i) >= 0 {
            key_from(m, k, i)
        } else if x.0 == k {
            m.len() as int
        } else {
            -1
        },
    decreases m.len() - i,
{
    if i < m.len() {
        assert(m.push(x)[i] == m[i]);
        lemma_key_from_push(m, x, k, i + 1);
    } else {
        assert(m.push(x)[i] == x);
        assert(key_from(m.push(x), k, i + 1) == -1);
    }
}

/// Where a key stands once an entry is appended.
pub proof fn lemma_key_push<K, V>(m: Seq<(K, V)>, x: (K, V), k: K)
    ensures
        key_index(m.push(x), k) == if key_index(m, k) >= 0 {
            key_index(m, k)
        } else if x.0 == k {
            m.len() as int
        } else {
            -1
        },
{
    lemma_key_from_push(m, x, k, 0);
}

proof fn lemma_key_from_bounds<K, V>(m: Seq<(K, V)>, k: K, i: int)
    ensures
        -1 <= key_from(m, k, i) < m.len(),
        key_from(m, k, i) >= 0 ==> m[key_from(m, k, i)].0 == k,
    decreases m.len() - i,
{
    if 0 <= i < m.len() && m[i].0 != k {
        lemma_key_from_bounds(m, k, i + 1);
    }
}

/// A key that is found is found at an entry with that key.
pub proof fn lemma_key_bounds<K, V>(m: Seq<(K, V)>, k: K)
    ensures
        -1 <= key_index(m, k) < m.len(),
        key_index(m, k) >= 0 ==> m[key_index(m, k)].0 == k,
{
    lemma_key_from_bounds(m, k, 0);
}

proof fn lemma_key_from_update<K, V>(m: Seq<(K, V)>, j: int, v: V, k: K, i: int)
    requires
        0 <= j < m.len(),
    ensures
        key_from(m.update(j, (m[j].0, v)), k, i) == key_from(m, k, i),
    decreases m.len() - i,
{
    if 0 <= i < m.len() {
        lemma_key_from_update(m, j, v, k, i + 1);
    }
}

/// Replacing the value of an entry moves no key.
pub proof fn lemma_key_update<K, V>(m: Seq<(K, V)>, j: int, v: V, k: K)
    requires
        0 <= j < m.len(),
    ensures
        key_index(m.update(j, (m[j].0, v)), k) == key_index(m, k),
{
    lemma_key_from_update(m, j, v, k, 0);
}

/// No key appears twice.
pub open spec fn keys_unique<K, V>(m: Seq<(K, V)>) -> bool {
    forall|i: int, j: int| 0 <= i < j < m.len() ==> m[i].0 != m[j].0
}

impl Alias {
    /// A copy with the same characters.
    pub fn copied(&self) -> (r: Alias)
        ensures
            r@ == self@,
    {
        Alias(self.0.clone())
    }
}

impl State {
    /// A copy with the same value.
    pub fn copied(&self) -> (r: State)
        ensures
            r@ == self@,
    {
        match self {
            State::Default => State::Default,
            State::Named(s) => State::Named(s.clone()),
        }
    }

    /// Whether the two states have the same value.
    pub fn same(&self, o: &State) -> (r: bool)
        ensures
            r == (self@ == o@),
    {
        match (self, o) {
            (State::Default, State::Default) => true,
            (State::Named(a), State::Named(b)) => a.eq(b),
            _ => false,
        }
    }
}

impl Speaker {
    /// A copy with the same value.
    pub fn copied(&self) -> (r: Speaker)
        ensures
            r@ == self@,
    {
        match self {
            Speaker::Narrator => Speaker::Narrator,
            Speaker::Character(a, s) => Speaker::Character(a.copied(), s.copied()),
        }
    }
}

impl Section {
    /// A copy with the same value.
    pub fn copied(&self) -> (r: Section)
        ensures
            r@ == self@,
    {
        match self {
            Section::Initial => Section::Initial,
            Section::Named(s) => Section::Named(s.clone()),
        }
    }

    /// Whether the two sections have the same value.
    pub fn same(&self, o: &Section) -> (r: bool)
        ensures
            r == (self@ == o@),
    {
        match (self, o) {
            (Section::Initial, Section::Initial) => true,
            (Section::Named(a), Section::Named(b)) => a.eq(b),
            _ => false,
        }
    }
}

impl MenuOption {
    /// An option with a title and no jump target yet.
    pub fn new(title: String) -> (r: MenuOption)
        ensures
            r@ == (OptionModel { title: Some(title@), args: seq![] }),
    {
        let none: Vec<char> = Vec::new();
        assert(none@ =~= Seq::<char>::empty());
        MenuOption { title: Some(title), args: crate::text::string_of(none.as_slice()) }
    }

    /// The option, jumping to the section named `section` when chosen.
    pub fn mark(self, section: &str) -> (r: MenuOption)
        ensures
            r@ == (OptionModel { title: self@.title, args: seq!['#'] + section@ }),
    {
        let mut cs: Vec<char> = Vec::new();
        cs.push('#');
        let rest = crate::text::chars_of(section);
        let mut i: usize = 0;
        while i < rest.len()
            invariant
                i <= rest@.len(),
                cs@ == seq!['#'] + rest@.subrange(0, i as int),
            decreases rest@.len() - i,
        {
            cs.push(rest[i]);
            i = i + 1;
            assert(cs@ =~= seq!['#'] + rest@.subrange(0, i as int));
        }
        assert(rest@.subrange(0, rest@.len() as int) =~= rest@);
        MenuOption { title: self.title, args: crate::text::string_of(cs.as_slice()) }
    }

    /// A copy with the same value.
    pub fn copied(&self) -> (r: MenuOption)
        ensures
            r@ == self@,
    {
        MenuOption { title: self.title.clone(), args: self.args.clone() }
    }
}

impl Menu {
    /// A copy with the same value.
    pub fn copied(&self) -> (r: Menu)
        ensures
            r@ == self@,
    {
        let mut options: Vec<MenuOption> = Vec::new();
        let mut i: usize = 0;
        while i < self.options.len()
            invariant
                i <= self.options@.len(),
                options@.map_values(|o: MenuOption| o@) == self@.options.subrange(0, i as int),
            decreases self.options@.len() - i,
        {
            let ghost o0 = options@.map_values(|o: MenuOption| o@);
            let o = self.options[i].copied();
            options.push(o);
            assert(options@.map_values(|o: MenuOption| o@) =~= o0.push(o@));
            i = i + 1;
            assert(options@.map_values(|o: MenuOption| o@) =~= self@.options.subrange(0, i as int));
        }
        assert(self@.options.subrange(0, self@.options.len() as int) =~= self@.options);
        Menu { title: self.title.clone(), options }
    }
}

/// The requirements that `character_requirements` builds from its entries.
pub open spec fn requirement_entries(entries: Seq<(&str, &[&str])>) -> Seq<(Seq<char>, Seq<StateModel>)> {
    entries.map_values(
        |e: (&str, &[&str])| (e.0@, e.1@.map_values(|s: &str| StateModel::Named(s@))),
    )
}

/// A character table: each alias with the named states it requires, in the order given.
pub fn character_requirements(entries: &[(&str, &[&str])]) -> (r: Vec<(Alias, Requirements)>)
    ensures
        characters_of(r@) == requirement_entries(entries@),
{
    let mut r: Vec<(Alias, Requirements)> = Vec::with_capacity(entries.len());
    let mut i: usize = 0;
    while i < entries.len()
        invariant
            i <= entries@.len(),
            characters_of(r@) == requirement_entries(entries@).subrange(0, i as int),
        decreases entries@.len() - i,
    {
        let (alias, names) = entries[i];
        let mut states: Vec<State> = Vec::with_capacity(names.len());
        let mut j: usize = 0;
        while j < names.len()
            invariant
                j <= names@.len(),
                states@.map_values(|s: State| s@) == names@.map_values(
                    |s: &str| StateModel::Named(s@),
                ).subrange(0, j as int),
            decreases names@.len() - j,
        {
            let ghost s0 = states@.map_values(|s: State| s@);
            let st = State::Named(names[j].to_owned());
            states.push(st);
            assert(states@.map_values(|s: State| s@) =~= s0.push(st@));
            j = j + 1;
            assert(states@.map_values(|s: State| s@) =~= names@.map_values(
                |s: &str| StateModel::Named(s@),
            ).subrange(0, j as int));
        }
        assert(names@.map_values(|s: &str| StateModel::Named(s@)).subrange(0, names@.len() as int)
            =~= names@.map_values(|s: &str| StateModel::Named(s@)));
        let ghost c0 = characters_of(r@);
        let entry = (Alias(alias.to_owned()), Requirements { states });
        r.push(entry);
        assert(characters_of(r@) =~= c0.push((entry.0@, entry.1@)));
        i = i + 1;
        assert(characters_of(r@) =~= requirement_entries(entries@).subrange(0, i as int));
    }
    assert(requirement_entries(entries@).subrange(0, entries@.len() as int) =~= requirement_entries(
        entries@,
    ));
    r
}

} // verus!
