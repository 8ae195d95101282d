//! Playback: a cursor into a dialog, the text-reveal animation, and the state
//! machine that moves them on ticks and input events.
use crate::parser::{
    key_index, texts, Dialog, DialogModel, Line, LineModel, Menu, MenuModel, Section, SectionModel,
    Speaker, SpeakerModel, StateModel,
};
use crate::builder::{line_ok, phrases_nonempty, section_pos};
use crate::text::{chars_of, string_of};
use crate::tokens::tail;
use vstd::arithmetic::div_mod::{
    lemma_add_mod_noop, lemma_mod_add_multiples_vanish, lemma_small_mod, lemma_sub_mod_noop,
};
use unicode_segmentation::UnicodeSegmentation;
use vstd::prelude::*;

verus! {

/// A position in a dialog: a section, a line of it and a segment of that line.
/// It may point past the end of the section, which ends the dialog.
#[derive(Debug, Clone)]
pub struct Cursor(Section, usize, usize);

/// The value of a `Cursor`.
pub struct CursorModel {
    pub section: SectionModel,
    pub line: int,
    pub segment: int,
}

impl View for Cursor {
    type V = CursorModel;

    closed spec fn view(&self) -> CursorModel {
        CursorModel { section: self.0@, line: self.1 as int, segment: self.2 as int }
    }
}

impl Cursor {
    /// The cursor at the start of the initial section.
    pub fn new() -> (r: Cursor)
        ensures
            r@ == (CursorModel { section: SectionModel::Initial, line: 0, segment: 0 }),
    {
        Cursor(Section::Initial, 0, 0)
    }

    fn set_section_internal(&mut self, section: Section)
        ensures
            final(self)@ == (CursorModel { section: section@, line: 0, segment: 0 }),
    {
        self.0 = section;
        self.1 = 0;
        self.2 = 0;
    }

    /// Back to the start of the initial section.
    pub fn reset(&mut self)
        ensures
            final(self)@ == (CursorModel { section: SectionModel::Initial, line: 0, segment: 0 }),
    {
        self.set_section_internal(Section::Initial);
    }

    /// To the start of the section named `name`.
    pub fn set_section(&mut self, name: String)
        ensures
            final(self)@ == (CursorModel { section: SectionModel::Named(name@), line: 0, segment: 0 }),
    {
        self.set_section_internal(Section::Named(name));
    }

    /// The section the cursor is in.
    pub fn section(&self) -> (r: &Section)
        ensures
            r@ == self@.section,
    {
        &self.0
    }

    /// To the first segment of the next line.
    pub fn next_line_index(&mut self)
        requires
            old(self)@.line < usize::MAX,
        ensures
            final(self)@ == (CursorModel {
                section: old(self)@.section,
                line: old(self)@.line + 1,
                segment: 0,
            }),
    {
        self.1 = self.1 + 1;
        self.2 = 0;
    }

    /// The index of the line in its section.
    pub fn line_index(&self) -> (r: usize)
        ensures
            r as int == self@.line,
    {
        self.1
    }

    /// To the next segment of the line.
    pub fn next_phrase_index(&mut self)
        requires
            old(self)@.segment < usize::MAX,
        ensures
            final(self)@ == (CursorModel {
                section: old(self)@.section,
                line: old(self)@.line,
                segment: old(self)@.segment + 1,
            }),
    {
        self.2 = self.2 + 1;
    }

    /// The index of the segment in its phrase.
    pub fn phrase_index(&self) -> (r: usize)
        ensures
            r as int == self@.segment,
    {
        self.2
    }
}

impl Cursor {
    /// Steps through a phrase's segments one at a time, as a plain console player does:
    /// gives the segment under the cursor and moves to the next one; past the last
    /// segment, moves to the next line and gives nothing.
    pub fn step_phrase<'a>(&mut self, segments: &'a Vec<String>) -> (r: Option<&'a String>)
        requires
            old(self)@.segment < usize::MAX,
            old(self)@.line < usize::MAX,
        ensures
            0 <= old(self)@.segment < segments@.len() ==> r == Some(&segments@[old(self)@.segment])
                && final(self)@ == (CursorModel { segment: old(self)@.segment + 1, ..old(self)@ }),
            !(0 <= old(self)@.segment < segments@.len()) ==> r is None && final(self)@ == (
            CursorModel { section: old(self)@.section, line: old(self)@.line + 1, segment: 0 }),
    {
        let i = self.phrase_index();
        if i < segments.len() {
            self.next_phrase_index();
            Some(&segments[i])
        } else {
            self.next_line_index();
            None
        }
    }
}

impl Default for Cursor {
    fn default() -> (r: Cursor)
        ensures
            r@ == (CursorModel { section: SectionModel::Initial, line: 0, segment: 0 }),
    {
        Cursor::new()
    }
}

/// The line under a cursor, if there is one.
pub open spec fn line_at(d: DialogModel, c: CursorModel) -> Option<LineModel> {
    let k = key_index(d.sections, c.section);
    if k >= 0 && 0 <= c.line < d.sections[k].1.len() {
        Some(d.sections[k].1[c.line])
    } else {
        None
    }
}

/// The cursor can be shown: on a phrase, it points at one of its segments.
pub open spec fn on_segment(d: DialogModel, c: CursorModel) -> bool {
    match line_at(d, c) {
        Some(LineModel::Phrase { lines, .. }) => 0 <= c.segment < lines.len(),
        _ => true,
    }
}

impl Dialog {
    /// The line under the cursor; `None` once the cursor is past the end of its section.
    pub fn get_line_by_cursor(&self, cursor: &Cursor) -> (r: Option<&Line>)
        ensures
            match r {
                Some(l) => line_at(self@, cursor@) == Some(l@),
                None => line_at(self@, cursor@) is None,
            },
    {
        let j = section_pos(&self.sections, cursor.section());
        if j == self.sections.len() {
            return None;
        }
        let lines = &self.sections[j].1;
        let i = cursor.line_index();
        if i < lines.len() {
            Some(&lines[i])
        } else {
            None
        }
    }

    /// Whether the cursor can be shown (see `on_segment`).
    pub fn is_on_segment(&self, cursor: &Cursor) -> (r: bool)
        ensures
            r == on_segment(self@, cursor@),
    {
        match self.get_line_by_cursor(cursor) {
            Some(Line::Phrase { lines, .. }) => cursor.phrase_index() < lines.len(),
            _ => true,
        }
    }
}

/// Text-reveal progress of the active segment, counted in grapheme clusters.
#[derive(Clone, Copy, Debug, PartialEq, Eq, Structural)]
pub struct Animation {
    /// Clusters shown so far
    pub current: usize,
    /// Clusters in the segment
    pub target: usize,
    /// Ticks spent waiting; playback leaves it as it is
    pub waited: usize,
}

impl Animation {
    /// Nothing shown of an empty target.
    pub fn new() -> (r: Animation)
        ensures
            r == (Animation { current: 0, target: 0, waited: 0 }),
    {
        Animation { current: 0, target: 0, waited: 0 }
    }
}

impl Default for Animation {
    fn default() -> (r: Animation)
        ensures
            r == (Animation { current: 0, target: 0, waited: 0 }),
    {
        Animation::new()
    }
}

/// The player's whole position: the cursor and the animation.
#[derive(Debug, Clone)]
pub struct DialogState {
    pub cursor: Cursor,
    pub animation: Animation,
}

/// The value of a `DialogState`.
pub struct PlaybackModel {
    pub cursor: CursorModel,
    pub animation: Animation,
}

impl View for DialogState {
    type V = PlaybackModel;

    open spec fn view(&self) -> PlaybackModel {
        PlaybackModel { cursor: self.cursor@, animation: self.animation }
    }
}

impl DialogState {
    /// The start of playback: the initial section, nothing revealed.
    pub fn new() -> (r: DialogState)
        ensures
            r@ == (PlaybackModel {
                cursor: CursorModel { section: SectionModel::Initial, line: 0, segment: 0 },
                animation: Animation { current: 0, target: 0, waited: 0 },
            }),
    {
        DialogState { cursor: Cursor::new(), animation: Animation::new() }
    }
}

impl Default for DialogState {
    fn default() -> (r: DialogState)
        ensures
            r@ == (PlaybackModel {
                cursor: CursorModel { section: SectionModel::Initial, line: 0, segment: 0 },
                animation: Animation { current: 0, target: 0, waited: 0 },
            }),
    {
        DialogState::new()
    }
}

impl Dialog {
    /// The playback state at the start of this dialog.
    pub fn start(&self) -> (r: DialogState)
        ensures
            r@ == (PlaybackModel {
                cursor: CursorModel { section: SectionModel::Initial, line: 0, segment: 0 },
                animation: Animation { current: 0, target: 0, waited: 0 },
            }),
    {
        DialogState::new()
    }
}

/// Something that plays a dialog from start to end, one line at a time.
pub trait Player {
    fn play(dialog: Dialog);

    fn process_line(state: &mut DialogState, line: &Line);

    fn end();
}

/// What input the player waits for.
#[derive(Debug, Clone)]
pub enum InputKind {
    /// Another segment of the phrase follows
    AfterSegment,
    /// The phrase is complete; the next line follows
    AfterLastSegment,
    /// A menu is shown, with the option at `selection` highlighted
    MenuChoice { selection: usize, menu: Menu },
}

/// What the player does at its current position.
#[derive(Debug, Clone)]
pub enum PlayState {
    /// The segment is still being revealed
    Animating,
    /// The segment or menu is fully shown; input is awaited
    WaitingInput(InputKind),
    /// The cursor is past the end of its section
    Ended,
}

/// The value of a `PlayState`; a menu choice keeps its selection and menu.
pub enum PlayModel {
    Animating,
    AfterSegment,
    AfterLastSegment,
    MenuChoice(int, MenuModel),
    Ended,
}

impl View for PlayState {
    type V = PlayModel;

    open spec fn view(&self) -> PlayModel {
        match self {
            PlayState::Animating => PlayModel::Animating,
            PlayState::WaitingInput(InputKind::AfterSegment) => PlayModel::AfterSegment,
            PlayState::WaitingInput(InputKind::AfterLastSegment) => PlayModel::AfterLastSegment,
            PlayState::WaitingInput(InputKind::MenuChoice { selection, menu }) => PlayModel::MenuChoice(
                *selection as int,
                menu@,
            ),
            PlayState::Ended => PlayModel::Ended,
        }
    }
}

/// The extended grapheme clusters of a text, in order.
pub uninterp spec fn grapheme_clusters(s: Seq<char>) -> Seq<Seq<char>>;

/// Relies on `UnicodeSegmentation::graphemes(s, true)`: the extended grapheme clusters of `s`.
#[verifier::external_body]
fn graphemes_of(s: &str) -> (r: Vec<String>)
    ensures
        texts(r@) == grapheme_clusters(s@),
{
    s.graphemes(true).map(String::from).collect()
}

/// The selection that a menu keeps from the previous frame; 0 on entry.
pub open spec fn carried_selection(prev: PlayModel) -> int {
    match prev {
        PlayModel::MenuChoice(s, _) => s,
        _ => 0,
    }
}

/// What the player does at cursor `c`, with `current` of `target` clusters revealed.
pub open spec fn classify_model(
    d: DialogModel,
    c: CursorModel,
    current: int,
    target: int,
    prev: PlayModel,
) -> PlayModel {
    match line_at(d, c) {
        None => PlayModel::Ended,
        Some(LineModel::Phrase { lines, .. }) => if current < target {
            PlayModel::Animating
        } else if c.segment == lines.len() - 1 {
            PlayModel::AfterLastSegment
        } else {
            PlayModel::AfterSegment
        },
        Some(LineModel::Menu(m)) => PlayModel::MenuChoice(carried_selection(prev), m),
    }
}

/// The number of clusters to reveal at cursor `c`: those of the segment under it,
/// or `old` where no segment is.
pub open spec fn segment_target(d: DialogModel, c: CursorModel, old: int) -> int {
    match line_at(d, c) {
        Some(LineModel::Phrase { lines, .. }) => grapheme_clusters(lines[c.segment]).len() as int,
        _ => old,
    }
}

impl Dialog {
    /// What the player does in `state`, whose animation target is already set.
    pub fn classify(&self, state: &DialogState, previous: &PlayState) -> (r: PlayState)
        requires
            on_segment(self@, state.cursor@),
        ensures
            r@ == classify_model(
                self@,
                state.cursor@,
                state.animation.current as int,
                state.animation.target as int,
                previous@,
            ),
    {
        match self.get_line_by_cursor(&state.cursor) {
            None => PlayState::Ended,
            Some(Line::Phrase { lines, .. }) => {
                if state.animation.current < state.animation.target {
                    PlayState::Animating
                } else if state.cursor.phrase_index() == lines.len() - 1 {
                    PlayState::WaitingInput(InputKind::AfterLastSegment)
                } else {
                    PlayState::WaitingInput(InputKind::AfterSegment)
                }
            },
            Some(Line::Menu(m)) => {
                let selection = match previous {
                    PlayState::WaitingInput(InputKind::MenuChoice { selection, .. }) => *selection,
                    _ => 0,
                };
                PlayState::WaitingInput(InputKind::MenuChoice { selection, menu: m.copied() })
            },
        }
    }

    /// One frame's resolution: sets the animation target to the cluster count of the
    /// segment under the cursor, and says what the player does.
    pub fn resolve(&self, state: &mut DialogState, previous: &PlayState) -> (r: PlayState)
        requires
            on_segment(self@, old(state).cursor@),
        ensures
            final(state).cursor@ == old(state).cursor@,
            final(state).animation == (Animation {
                target: segment_target(
                    self@,
                    old(state).cursor@,
                    old(state).animation.target as int,
                ) as usize,
                ..old(state).animation
            }),
            r@ == classify_model(
                self@,
                old(state).cursor@,
                old(state).animation.current as int,
                final(state).animation.target as int,
                previous@,
            ),
    {
        if let Some(Line::Phrase { lines, .. }) = self.get_line_by_cursor(&state.cursor) {
            let clusters = graphemes_of(lines[state.cursor.phrase_index()].as_str());
            state.animation.target = clusters.len();
        }
        self.classify(state, previous)
    }
}

/// `(selection + delta)` wrapped into `0..len` (a floor modulo: a negative value wraps to
/// the end).
pub fn wrap_selection(selection: usize, delta: isize, len: usize) -> (r: usize)
    requires
        len > 0,
    ensures
        r as int == (selection as int + delta as int) % (len as int),
        r < len,
{
    let ghost l = len as int;
    let s = selection % len;
    let abs: usize = if delta >= 0 {
        delta as usize
    } else {
        (-(delta + 1)) as usize + 1
    };
    let d = abs % len;
    proof {
        lemma_small_mod(s as nat, len as nat);
    }
    if delta >= 0 {
        proof {
            lemma_add_mod_noop(selection as int, delta as int, l);
        }
        if d >= len - s {
            proof {
                lemma_mod_add_multiples_vanish(s + d - l, l);
                lemma_small_mod((s + d - l) as nat, len as nat);
            }
            d - (len - s)
        } else {
            proof {
                lemma_small_mod((s + d) as nat, len as nat);
            }
            s + d
        }
    } else {
        proof {
            lemma_sub_mod_noop(selection as int, abs as int, l);
        }
        if s >= d {
            proof {
                lemma_small_mod((s - d) as nat, len as nat);
            }
            s - d
        } else {
            proof {
                lemma_mod_add_multiples_vanish(s - d, l);
                lemma_small_mod((l + s - d) as nat, len as nat);
            }
            len - (d - s)
        }
    }
}

/// The menu selection after a move by `delta`; other states are left as they are.
pub open spec fn move_model(p: PlayModel, delta: int) -> PlayModel {
    match p {
        PlayModel::MenuChoice(s, m) => PlayModel::MenuChoice((s + delta) % (m.options.len() as int), m),
        _ => p,
    }
}

impl PlayState {
    /// Moves the menu selection by `delta`, wrapping around.
    pub fn move_selection(&mut self, delta: isize)
        requires
            old(self)@ matches PlayModel::MenuChoice(_, m) ==> m.options.len() > 0,
        ensures
            final(self)@ == move_model(old(self)@, delta as int),
    {
        if let PlayState::WaitingInput(InputKind::MenuChoice { selection, menu }) = self {
            *selection = wrap_selection(*selection, delta, menu.options.len());
        }
    }
}

/// The animation that a new segment starts with.
pub open spec fn fresh() -> Animation {
    Animation { current: 0, target: 0, waited: 0 }
}

/// The effect of an Advance input.
pub open spec fn advance_model(s: PlaybackModel, mode: PlayModel) -> PlaybackModel {
    match mode {
        PlayModel::Animating => PlaybackModel {
            cursor: s.cursor,
            animation: Animation { current: s.animation.target, ..s.animation },
        },
        PlayModel::AfterSegment => PlaybackModel {
            cursor: CursorModel { segment: s.cursor.segment + 1, ..s.cursor },
            animation: fresh(),
        },
        PlayModel::AfterLastSegment => PlaybackModel {
            cursor: CursorModel { section: s.cursor.section, line: s.cursor.line + 1, segment: 0 },
            animation: fresh(),
        },
        PlayModel::MenuChoice(sel, m) => PlaybackModel {
            cursor: CursorModel {
                section: SectionModel::Named(tail(m.options[sel].args)),
                line: 0,
                segment: 0,
            },
            animation: fresh(),
        },
        PlayModel::Ended => s,
    }
}

/// The effect of a tick: one more cluster revealed while animating.
pub open spec fn tick_model(s: PlaybackModel, mode: PlayModel) -> PlaybackModel {
    if mode is Animating && s.animation.current < s.animation.target {
        PlaybackModel {
            cursor: s.cursor,
            animation: Animation { current: (s.animation.current + 1) as usize, ..s.animation },
        }
    } else {
        s
    }
}

impl DialogState {
    /// The Advance input: reveals the whole segment, or moves to the next segment,
    /// line or chosen section.
    pub fn advance(&mut self, mode: &PlayState)
        requires
            mode@ matches PlayModel::MenuChoice(sel, m) ==> 0 <= sel < m.options.len(),
            mode@ is AfterSegment ==> old(self)@.cursor.segment < usize::MAX,
            mode@ is AfterLastSegment ==> old(self)@.cursor.line < usize::MAX,
        ensures
            final(self)@ == advance_model(old(self)@, mode@),
    {
        match mode {
            PlayState::Animating => {
                self.animation.current = self.animation.target;
            },
            PlayState::WaitingInput(InputKind::AfterSegment) => {
                self.cursor.next_phrase_index();
                self.animation = Animation::new();
            },
            PlayState::WaitingInput(InputKind::AfterLastSegment) => {
                self.cursor.next_line_index();
                self.animation = Animation::new();
            },
            PlayState::WaitingInput(InputKind::MenuChoice { selection, menu }) => {
                let args = &menu.options[*selection].args;
                let cs = chars_of(args.as_str());
                let target = if cs.len() >= 1 {
                    crate::text::copy_range(cs.as_slice(), 1, cs.len())
                } else {
                    Vec::new()
                };
                assert(target@ =~= tail(args@));
                self.cursor.set_section(string_of(target.as_slice()));
                self.animation = Animation::new();
            },
            PlayState::Ended => {},
        }
    }

    /// The Tick event: one more cluster revealed while animating, never past the target.
    pub fn tick(&mut self, mode: &PlayState)
        ensures
            final(self)@ == tick_model(old(self)@, mode@),
    {
        if let PlayState::Animating = mode {
            if self.animation.current < self.animation.target {
                self.animation.current = self.animation.current + 1;
            }
        }
    }
}

/// `shown`, or `n` when that is smaller.
pub open spec fn at_most(shown: usize, n: int) -> int {
    if shown < n {
        shown as int
    } else {
        n
    }
}

/// The texts of `ps` one after another.
pub open spec fn concat(ps: Seq<Seq<char>>) -> Seq<char>
    decreases ps.len(),
{
    if ps.len() == 0 {
        seq![]
    } else {
        concat(ps.drop_last()) + ps.last()
    }
}

/// The first `shown` clusters, joined (all of them when there are fewer).
pub fn join_clusters(clusters: &Vec<String>, shown: usize) -> (r: String)
    ensures
        r@ == concat(texts(clusters@).take(at_most(shown, clusters@.len() as int))),
{
    let n = if shown < clusters.len() {
        shown
    } else {
        clusters.len()
    };
    let ghost cs = texts(clusters@);
    let mut out: Vec<char> = Vec::new();
    let mut i: usize = 0;
    assert(cs.take(0) =~= Seq::<Seq<char>>::empty());
    assert(out@ =~= Seq::<char>::empty());
    while i < n
        invariant
            n <= clusters@.len(),
            cs == texts(clusters@),
            i <= n,
            out@ == concat(cs.take(i as int)),
        decreases n - i,
    {
        let piece = chars_of(clusters[i].as_str());
        let ghost o0 = out@;
        let mut j: usize = 0;
        while j < piece.len()
            invariant
                j <= piece@.len(),
                out@ == o0 + piece@.subrange(0, j as int),
            decreases piece@.len() - j,
        {
            out.push(piece[j]);
            j = j + 1;
            assert(out@ =~= o0 + piece@.subrange(0, j as int));
        }
        assert(piece@.subrange(0, piece@.len() as int) =~= piece@);
        assert(cs.take(i + 1).drop_last() =~= cs.take(i as int));
        i = i + 1;
    }
    string_of(out.as_slice())
}

/// The part of a segment that `shown` revealed clusters make visible.
pub fn visible_text(segment: &str, shown: usize) -> (r: String)
    ensures
        r@ == concat(
            grapheme_clusters(segment@).take(at_most(shown, grapheme_clusters(segment@).len() as int)),
        ),
{
    let clusters = graphemes_of(segment);
    join_clusters(&clusters, shown)
}

/// The name shown above a phrase: `Narrator`, the alias, or `alias: state`.
pub open spec fn label_of(s: SpeakerModel) -> Seq<char> {
    match s {
        SpeakerModel::Narrator => "Narrator"@,
        SpeakerModel::Character(a, StateModel::Default) => a,
        SpeakerModel::Character(a, StateModel::Named(st)) => a + seq![':', ' '] + st,
    }
}

impl Speaker {
    /// The name shown above this speaker's phrases.
    pub fn label(&self) -> (r: String)
        ensures
            r@ == label_of(self@),
    {
        match self {
            Speaker::Narrator => string_of(chars_of("Narrator").as_slice()),
            Speaker::Character(a, crate::parser::State::Default) => a.0.clone(),
            Speaker::Character(a, crate::parser::State::Named(st)) => {
                let mut out = chars_of(a.0.as_str());
                let ghost a0 = out@;
                out.push(':');
                out.push(' ');
                let tail_chars = chars_of(st.as_str());
                let ghost o0 = out@;
                let mut j: usize = 0;
                while j < tail_chars.len()
                    invariant
                        j <= tail_chars@.len(),
                        out@ == o0 + tail_chars@.subrange(0, j as int),
                    decreases tail_chars@.len() - j,
                {
                    out.push(tail_chars[j]);
                    j = j + 1;
                    assert(out@ =~= o0 + tail_chars@.subrange(0, j as int));
                }
                assert(tail_chars@.subrange(0, tail_chars@.len() as int) =~= tail_chars@);
                assert(out@ =~= a0 + seq![':', ' '] + st@);
                string_of(out.as_slice())
            },
        }
    }
}

/// A discrete playback event that can move the cursor.
pub enum Input {
    Advance,
    Tick,
}

/// The playback position after each event, taken in the mode that resolution gave for it.
pub open spec fn replay(s: PlaybackModel, events: Seq<(Input, PlayModel)>) -> PlaybackModel
    decreases events.len(),
{
    if events.len() == 0 {
        s
    } else {
        let next = match events[0].0 {
            Input::Advance => advance_model(s, events[0].1),
            Input::Tick => tick_model(s, events[0].1),
        };
        replay(next, events.drop_first())
    }
}

/// An event that can jump to another section: an Advance while a menu is shown.
pub open spec fn is_menu_jump(e: (Input, PlayModel)) -> bool {
    e.0 is Advance && e.1 is MenuChoice
}

/// Cursor monotonicity: with no menu jump among them, Advance and Tick events keep the
/// section and never decrease the line index.
pub proof fn lemma_cursor_monotone(s: PlaybackModel, events: Seq<(Input, PlayModel)>)
    requires
        forall|i: int| 0 <= i < events.len() ==> !is_menu_jump(#[trigger] events[i]),
    ensures
        replay(s, events).cursor.section == s.cursor.section,
        replay(s, events).cursor.line >= s.cursor.line,
    decreases events.len(),
{
    if events.len() > 0 {
        let next = match events[0].0 {
            Input::Advance => advance_model(s, events[0].1),
            Input::Tick => tick_model(s, events[0].1),
        };
        let rest = events.drop_first();
        assert forall|i: int| 0 <= i < rest.len() implies !is_menu_jump(#[trigger] rest[i]) by {
            assert(rest[i] == events[i + 1]);
        }
        lemma_cursor_monotone(next, rest);
    }
}

proof fn lemma_line_at_ok(d: DialogModel, c: CursorModel)
    requires
        phrases_nonempty(d.sections),
    ensures
        line_at(d, c) is Some ==> line_ok(line_at(d, c)->Some_0),
        c.segment == 0 ==> on_segment(d, c),
{
    crate::parser::lemma_key_bounds(d.sections, c.section);
    let k = key_index(d.sections, c.section);
    if k >= 0 && 0 <= c.line < d.sections[k].1.len() {
        assert(line_ok(d.sections[k].1[c.line]));
    }
}

/// Playback always shows something: in a dialog whose phrases all have a segment,
/// the start position can be shown, and so can the position after any Advance or
/// Tick taken in the mode that resolution gives.
pub proof fn lemma_playback_stays_on_segment(
    d: DialogModel,
    s: PlaybackModel,
    prev: PlayModel,
    input: Input,
)
    requires
        phrases_nonempty(d.sections),
        on_segment(d, s.cursor),
    ensures
        on_segment(d, CursorModel { section: SectionModel::Initial, line: 0, segment: 0 }),
        ({
            let mode = classify_model(
                d,
                s.cursor,
                s.animation.current as int,
                s.animation.target as int,
                prev,
            );
            let next = match input {
                Input::Advance => advance_model(s, mode),
                Input::Tick => tick_model(s, mode),
            };
            on_segment(d, next.cursor)
        }),
{
    lemma_line_at_ok(d, CursorModel { section: SectionModel::Initial, line: 0, segment: 0 });
    let mode = classify_model(d, s.cursor, s.animation.current as int, s.animation.target as int, prev);
    let next = advance_model(s, mode);
    lemma_line_at_ok(d, next.cursor);
}

} // verus!
