use vstd::prelude::*;
use crate::matcher::{
    chars_of, lower_of, lowercase, skim_score, skim_score_of, string_of, trim, trimmed_of,
};
use crate::matcher::{is_subseq, lemma_subseq_exact, skim_accepts};
use crate::rank::{rank, ranked};

verus! {

/// One open tab as the host reports it.
#[derive(Debug)]
pub struct Tab {
    pub position: usize,
    pub name: String,
    pub active: bool,
}

/// A key as the host delivers it.
#[derive(Clone, Copy, Debug, PartialEq, Eq, Structural)]
pub enum Key {
    Esc,
    Ctrl(char),
    Down,
    Up,
    Char(char),
    Backspace,
    Other,
}

/// An event delivered by the host.
pub enum Event {
    TabUpdate(Vec<Tab>),
    Key(Key),
    Other,
}

/// A command for the host to carry out.
#[derive(Clone, Copy, Debug, PartialEq, Eq, Structural)]
pub enum Command {
    CloseFocus,
    /// Focus the tab with this one-based index.
    SwitchTabTo(u128),
}

/// One line of the candidate list.
#[derive(Debug)]
pub struct Row {
    pub label: String,
    pub active: bool,
    pub selected: bool,
}

/// What a key asks for.
#[derive(Clone, Copy, Debug, PartialEq, Eq, Structural)]
pub enum KeyAction {
    Close,
    Down,
    Up,
    Confirm,
    Erase,
    Append(char),
    Ignore,
}

/// The overlay's whole state: the tab snapshot, the filter text and the
/// highlighted tab's position.
pub struct State {
    pub tabs: Vec<Tab>,
    pub filter: Vec<char>,
    pub selected: Option<usize>,
    /// Matching folds case on both sides when set, and compares characters
    /// as typed when clear.
    pub ignore_case: bool,
}

pub open spec fn digit_char(d: nat) -> char {
    seq!['0', '1', '2', '3', '4', '5', '6', '7', '8', '9'][d as int]
}

/// Decimal digits of `n`.
pub open spec fn decimal(n: nat) -> Seq<char>
    decreases n,
{
    if n < 10 {
        seq![digit_char(n)]
    } else {
        decimal(n / 10).push(digit_char(n % 10))
    }
}

/// The one-based index of a tab followed by `tail`.
pub open spec fn label_with(t: Tab, tail: Seq<char>) -> Seq<char> {
    decimal(t.position as nat + 1) + tail + t.name@
}

/// The text a tab is searched by: `"{index}: {name}"`.
pub open spec fn search_key(t: Tab) -> Seq<char> {
    label_with(t, seq![':', ' '])
}

/// The text a tab is listed as: `"{index}:{name}"`.
pub open spec fn row_label(t: Tab) -> Seq<char> {
    label_with(t, seq![':'])
}

/// Case folding as configured.
pub open spec fn fold(s: Seq<char>, ignore_case: bool) -> Seq<char> {
    if ignore_case {
        lower_of(s)
    } else {
        s
    }
}

/// A tab's score: zero for every tab under an empty filter, else the skim
/// score of the (folded) filter inside the (folded) search text.
pub open spec fn score_spec(t: Tab, filter: Seq<char>, ignore_case: bool) -> Option<i64> {
    if filter.len() == 0 {
        Some(0)
    } else {
        skim_score_of(fold(search_key(t), ignore_case), fold(filter, ignore_case))
    }
}

/// The filter matches `key`: when folding case, its lower-cased characters
/// occur in order, gaps allowed, in the lower-cased key; otherwise as the
/// matcher compares them.
pub open spec fn filter_matches(key: Seq<char>, filter: Seq<char>, ignore_case: bool) -> bool {
    if ignore_case {
        is_subseq(lower_of(key), lower_of(filter), true)
    } else {
        skim_accepts(key, filter)
    }
}

pub open spec fn scores_spec(tabs: Seq<Tab>, filter: Seq<char>, ignore_case: bool) -> Seq<
    Option<i64>,
> {
    Seq::new(tabs.len(), |i: int| score_spec(tabs[i], filter, ignore_case))
}

pub open spec fn positions(tabs: Seq<Tab>) -> Seq<usize> {
    Seq::new(tabs.len(), |i: int| tabs[i].position)
}

/// First index of `p` in `vs`, or -1.
pub open spec fn index_of(vs: Seq<usize>, p: usize) -> int
    decreases vs.len(),
{
    if vs.len() == 0 {
        -1
    } else if vs[0] == p {
        0
    } else {
        let k = index_of(vs.drop_first(), p);
        if k < 0 {
            -1
        } else {
            k + 1
        }
    }
}

/// Selection after moving down through `vs`, wrapping to the first.
pub open spec fn step_down(vs: Seq<usize>, sel: Option<usize>) -> Option<usize> {
    if vs.len() == 0 {
        sel
    } else if sel is None {
        Some(vs[0])
    } else {
        let k = index_of(vs, sel->0);
        if 0 <= k && k + 1 < vs.len() {
            Some(vs[k + 1])
        } else {
            Some(vs[0])
        }
    }
}

pub open spec fn reversed(vs: Seq<usize>) -> Seq<usize> {
    Seq::new(vs.len(), |i: int| vs[vs.len() - 1 - i])
}

/// Selection after moving up through `vs`, wrapping to the last.
pub open spec fn step_up(vs: Seq<usize>, sel: Option<usize>) -> Option<usize> {
    step_down(reversed(vs), sel)
}

/// The first of `vs`, if any.
pub open spec fn first_of(vs: Seq<usize>) -> Option<usize> {
    if vs.len() == 0 {
        None
    } else {
        Some(vs[0])
    }
}

/// Position of the first tab marked active.
pub open spec fn active_position(tabs: Seq<Tab>) -> Option<usize>
    decreases tabs.len(),
{
    if tabs.len() == 0 {
        None
    } else if tabs[0].active {
        Some(tabs[0].position)
    } else {
        active_position(tabs.drop_first())
    }
}

/// Index of the first tab at position `p`, or -1.
pub open spec fn tab_index(tabs: Seq<Tab>, p: usize) -> int {
    index_of(positions(tabs), p)
}

/// A character that extends the filter.
pub open spec fn is_filter_char(c: char) -> bool {
    (c as u32) < 128
}

impl State {
    /// Snapshot indices of the viewable tabs, best first.
    pub open spec fn view_indices(self) -> Seq<usize> {
        ranked(
            scores_spec(self.tabs@, self.filter@, self.ignore_case),
            positions(self.tabs@),
            self.tabs@.len(),
        )
    }

    /// Positions of the viewable tabs, best first.
    pub open spec fn view_positions(self) -> Seq<usize> {
        self.view_indices().map_values(|i: usize| self.tabs@[i as int].position)
    }

    /// The filter matches tab `i`'s search text.
    pub open spec fn matches(self, i: int) -> bool {
        filter_matches(search_key(self.tabs@[i]), self.filter@, self.ignore_case)
    }

    /// Everything but the selection is as in `o`.
    pub open spec fn same_content(self, o: State) -> bool {
        self.tabs@ == o.tabs@ && self.filter@ == o.filter@ && self.ignore_case == o.ignore_case
    }
}

fn push_decimal(n: u128, out: &mut Vec<char>)
    ensures
        final(out)@ == old(out)@ + decimal(n as nat),
    decreases n,
{
    let digits = vec!['0', '1', '2', '3', '4', '5', '6', '7', '8', '9'];
    assert(digits@ == seq!['0', '1', '2', '3', '4', '5', '6', '7', '8', '9']);
    if n >= 10 {
        push_decimal(n / 10, out);
    }
    let d = (n % 10) as usize;
    out.push(digits[d]);
    assert(final(out)@ =~= old(out)@ + decimal(n as nat));
}

fn push_all(out: &mut Vec<char>, tail: &Vec<char>)
    ensures
        final(out)@ == old(out)@ + tail@,
{
    let mut i: usize = 0;
    while i < tail.len()
        invariant
            i <= tail@.len(),
            out@ == old(out)@ + tail@.subrange(0, i as int),
        decreases tail@.len() - i,
    {
        out.push(tail[i]);
        i = i + 1;
        assert(out@ =~= old(out)@ + tail@.subrange(0, i as int));
    }
    assert(tail@.subrange(0, tail@.len() as int) =~= tail@);
}

/// The one-based index of `tab`, then `sep`, then its name.
fn label(tab: &Tab, sep: &Vec<char>) -> (r: Vec<char>)
    ensures
        r@ == label_with(*tab, sep@),
{
    let mut key: Vec<char> = Vec::new();
    push_decimal(tab.position as u128 + 1, &mut key);
    push_all(&mut key, sep);
    let name = chars_of(tab.name.as_str());
    push_all(&mut key, &name);
    assert(key@ =~= label_with(*tab, sep@));
    key
}

fn step_forward(vs: &Vec<usize>, sel: Option<usize>) -> (r: Option<usize>)
    ensures
        r == step_down(vs@, sel),
{
    if vs.len() == 0 {
        return sel;
    }
    match sel {
        None => Some(vs[0]),
        Some(p) => {
            let mut k: usize = 0;
            while k < vs.len() && vs[k] != p
                invariant
                    k <= vs@.len(),
                    forall|j: int| 0 <= j < k ==> vs@[j] != p,
                decreases vs@.len() - k,
            {
                k = k + 1;
            }
            proof {
                lemma_index_of(vs@, p, k as int);
            }
            if k < vs.len() - 1 {
                Some(vs[k + 1])
            } else {
                Some(vs[0])
            }
        },
    }
}

proof fn lemma_index_of(vs: Seq<usize>, p: usize, k: int)
    requires
        0 <= k <= vs.len(),
        forall|j: int| 0 <= j < k ==> vs[j] != p,
        k < vs.len() ==> vs[k] == p,
    ensures
        index_of(vs, p) == if k < vs.len() {
            k
        } else {
            -1
        },
    decreases k,
{
    if k > 0 {
        assert forall|j: int| 0 <= j < k - 1 implies vs.drop_first()[j] != p by {
            assert(vs[j + 1] != p);
        }
        lemma_index_of(vs.drop_first(), p, k - 1);
    }
}

impl State {
    /// A fresh overlay: no tabs, empty filter, nothing selected.
    pub fn new(ignore_case: bool) -> (r: State)
        ensures
            r.tabs@.len() == 0,
            r.filter@.len() == 0,
            r.selected is None,
            r.ignore_case == ignore_case,
    {
        State { tabs: Vec::new(), filter: Vec::new(), selected: None, ignore_case }
    }

    /// Score of `tab` against the filter: the skim score of the filter inside
    /// `"{index}: {name}"`, both case-folded when `ignore_case` is set.
    pub fn score(&self, tab: &Tab) -> (r: Option<i64>)
        ensures
            r == score_spec(*tab, self.filter@, self.ignore_case),
            r is Some <==> filter_matches(search_key(*tab), self.filter@, self.ignore_case),
    {
        let sep = vec![':', ' '];
        assert(sep@ == seq![':', ' ']);
        let key = label(tab, &sep);
        if self.ignore_case {
            let k = lowercase(&key);
            let f = lowercase(&self.filter);
            proof {
                lemma_subseq_exact(k@, f@);
            }
            skim_score(&k, &f)
        } else {
            skim_score(&key, &self.filter)
        }
    }

    /// Snapshot indices of the viewable tabs: exactly those the filter
    /// matches, best score first, equal scores by ascending position.
    pub fn viewable_tabs(&self) -> (r: Vec<usize>)
        ensures
            r@ == self.view_indices(),
            forall|i: usize|
                i < self.tabs@.len() ==> (#[trigger] r@.contains(i) <==> self.matches(i as int)),
    {
        let mut sc: Vec<Option<i64>> = Vec::new();
        let mut pos: Vec<usize> = Vec::new();
        let mut i: usize = 0;
        while i < self.tabs.len()
            invariant
                i <= self.tabs@.len(),
                sc@ =~= scores_spec(self.tabs@, self.filter@, self.ignore_case).subrange(
                    0,
                    i as int,
                ),
                pos@ =~= positions(self.tabs@).subrange(0, i as int),
                forall|j: int|
                    0 <= j < i ==> (#[trigger] sc@[j] is Some <==> self.matches(j)),
            decreases self.tabs@.len() - i,
        {
            sc.push(self.score(&self.tabs[i]));
            pos.push(self.tabs[i].position);
            i = i + 1;
        }
        assert(sc@ =~= scores_spec(self.tabs@, self.filter@, self.ignore_case));
        assert(pos@ =~= positions(self.tabs@));
        let n = self.tabs.len();
        proof {
            crate::rank::lemma_ranked_members(sc@, pos@, n as nat);
        }
        rank(&sc, &pos)
    }

    /// Positions of the viewable tabs, best first.
    pub fn viewable_positions(&self) -> (r: Vec<usize>)
        ensures
            r@ == self.view_positions(),
    {
        let idx = self.viewable_tabs();
        let n = self.tabs.len();
        proof {
            crate::rank::lemma_ranked_members(
                scores_spec(self.tabs@, self.filter@, self.ignore_case),
                positions(self.tabs@),
                self.tabs@.len(),
            );
        }
        let mut r: Vec<usize> = Vec::new();
        let mut k: usize = 0;
        while k < idx.len()
            invariant
                idx@ == self.view_indices(),
                k <= idx@.len(),
                forall|x: usize| #[trigger] idx@.contains(x) ==> x < self.tabs@.len(),
                r@ =~= self.view_positions().subrange(0, k as int),
            decreases idx@.len() - k,
        {
            assert(idx@.contains(idx@[k as int]));
            r.push(self.tabs[idx[k]].position);
            k = k + 1;
        }
        assert(r@ =~= self.view_positions());
        r
    }

    /// Selects the top-ranked viewable tab, or nothing when none is viewable.
    pub fn reset_selection(&mut self)
        ensures
            final(self).same_content(*old(self)),
            final(self).selected == first_of(old(self).view_positions()),
    {
        let vs = self.viewable_positions();
        if vs.len() == 0 {
            self.selected = None;
        } else {
            self.selected = Some(vs[0]);
        }
    }

    /// Moves the selection to the next viewable tab, wrapping to the first;
    /// with nothing viewable the selection stays.
    pub fn select_down(&mut self)
        ensures
            final(self).same_content(*old(self)),
            final(self).selected == step_down(old(self).view_positions(), old(self).selected),
    {
        let vs = self.viewable_positions();
        self.selected = step_forward(&vs, self.selected);
    }

    /// Moves the selection to the previous viewable tab, wrapping to the last;
    /// with nothing viewable the selection stays.
    pub fn select_up(&mut self)
        ensures
            final(self).same_content(*old(self)),
            final(self).selected == step_up(old(self).view_positions(), old(self).selected),
    {
        let vs = self.viewable_positions();
        let mut rev: Vec<usize> = Vec::new();
        let mut k: usize = vs.len();
        while k > 0
            invariant
                k <= vs@.len(),
                rev@ =~= reversed(vs@).subrange(0, vs@.len() - k),
            decreases k,
        {
            k = k - 1;
            rev.push(vs[k]);
        }
        assert(rev@ =~= reversed(vs@));
        self.selected = step_forward(&rev, self.selected);
    }
}

/// The action bound to a key: Esc or Ctrl-c close, Down or Ctrl-n and Up or
/// Ctrl-p move, Enter or `Y` confirm, Backspace erases, any other ASCII
/// character extends the filter.
pub open spec fn key_action(k: Key) -> KeyAction {
    match k {
        Key::Esc => KeyAction::Close,
        Key::Ctrl(c) => if c == 'c' {
            KeyAction::Close
        } else if c == 'n' {
            KeyAction::Down
        } else if c == 'p' {
            KeyAction::Up
        } else {
            KeyAction::Ignore
        },
        Key::Down => KeyAction::Down,
        Key::Up => KeyAction::Up,
        Key::Char(c) => if c == '\n' || c == 'Y' {
            KeyAction::Confirm
        } else if is_filter_char(c) {
            KeyAction::Append(c)
        } else {
            KeyAction::Ignore
        },
        Key::Backspace => KeyAction::Erase,
        Key::Other => KeyAction::Ignore,
    }
}

/// Commands for confirming `sel`: close the overlay and focus that tab, when
/// a tab at that position exists.
pub open spec fn confirm_commands(tabs: Seq<Tab>, sel: Option<usize>) -> Seq<Command> {
    if sel is Some && tab_index(tabs, sel->0) >= 0 {
        seq![Command::CloseFocus, Command::SwitchTabTo((sel->0 + 1) as u128)]
    } else {
        seq![]
    }
}

pub open spec fn placeholder() -> Seq<char> {
    "(filter by index or name)"@
}

/// The action bound to `k`.
pub fn classify(k: Key) -> (r: KeyAction)
    ensures
        r == key_action(k),
{
    match k {
        Key::Esc => KeyAction::Close,
        Key::Ctrl(c) => if c == 'c' {
            KeyAction::Close
        } else if c == 'n' {
            KeyAction::Down
        } else if c == 'p' {
            KeyAction::Up
        } else {
            KeyAction::Ignore
        },
        Key::Down => KeyAction::Down,
        Key::Up => KeyAction::Up,
        Key::Char(c) => if c == '\n' || c == 'Y' {
            KeyAction::Confirm
        } else if (c as u32) < 128 {
            KeyAction::Append(c)
        } else {
            KeyAction::Ignore
        },
        Key::Backspace => KeyAction::Erase,
        Key::Other => KeyAction::Ignore,
    }
}

fn find_active(tabs: &Vec<Tab>) -> (r: Option<usize>)
    ensures
        r == active_position(tabs@),
{
    let mut i: usize = 0;
    assert(tabs@.subrange(0, tabs@.len() as int) =~= tabs@);
    while i < tabs.len()
        invariant
            i <= tabs@.len(),
            active_position(tabs@) == active_position(tabs@.subrange(i as int, tabs@.len() as int)),
        decreases tabs@.len() - i,
    {
        let ghost rest = tabs@.subrange(i as int, tabs@.len() as int);
        if tabs[i].active {
            return Some(tabs[i].position);
        }
        assert(rest.drop_first() =~= tabs@.subrange(i + 1, tabs@.len() as int));
        i = i + 1;
    }
    None
}

fn has_tab_at(tabs: &Vec<Tab>, p: usize) -> (r: bool)
    ensures
        r == (tab_index(tabs@, p) >= 0),
{
    let mut k: usize = 0;
    while k < tabs.len() && tabs[k].position != p
        invariant
            k <= tabs@.len(),
            forall|j: int| 0 <= j < k ==> positions(tabs@)[j] != p,
        decreases tabs@.len() - k,
    {
        k = k + 1;
    }
    proof {
        lemma_index_of(positions(tabs@), p, k as int);
    }
    k < tabs.len()
}

/// The `ignore_case` setting from its configured text: `false` (surrounding
/// white space ignored) turns it off; absent, `true` or unreadable text leaves
/// it on.
pub fn ignore_case_setting(value: Option<&str>) -> (r: bool)
    ensures
        r == !(value is Some && trimmed_of(value->0@) == "false"@),
{
    proof {
        reveal_strlit("false");
    }
    match value {
        None => true,
        Some(v) => {
            let t = trim(v);
            let off = t.len() == 5 && t[0] == 'f' && t[1] == 'a' && t[2] == 'l' && t[3] == 's'
                && t[4] == 'e';
            assert(off ==> t@ =~= "false"@);
            !off
        },
    }
}

impl State {
    /// Dispatches one host event; returns whether to redraw and the commands
    /// for the host, in order.
    pub fn update(&mut self, event: Event) -> (r: (bool, Vec<Command>))
        ensures
            match event {
                Event::TabUpdate(ts) => {
                    &&& final(self).tabs@ == ts@
                    &&& final(self).filter@ == old(self).filter@
                    &&& final(self).ignore_case == old(self).ignore_case
                    &&& final(self).selected == if active_position(ts@) is Some {
                        active_position(ts@)
                    } else {
                        first_of(final(self).view_positions())
                    }
                    &&& r.0
                    &&& r.1@.len() == 0
                },
                Event::Key(k) => match key_action(k) {
                    KeyAction::Close => {
                        &&& final(self).same_content(*old(self))
                        &&& final(self).selected == old(self).selected
                        &&& !r.0
                        &&& r.1@ == seq![Command::CloseFocus]
                    },
                    KeyAction::Down => {
                        &&& final(self).same_content(*old(self))
                        &&& final(self).selected == step_down(
                            old(self).view_positions(),
                            old(self).selected,
                        )
                        &&& r.0
                        &&& r.1@.len() == 0
                    },
                    KeyAction::Up => {
                        &&& final(self).same_content(*old(self))
                        &&& final(self).selected == step_up(
                            old(self).view_positions(),
                            old(self).selected,
                        )
                        &&& r.0
                        &&& r.1@.len() == 0
                    },
                    KeyAction::Confirm => {
                        &&& final(self).same_content(*old(self))
                        &&& final(self).selected == old(self).selected
                        &&& !r.0
                        &&& r.1@ == confirm_commands(old(self).tabs@, old(self).selected)
                    },
                    KeyAction::Erase => {
                        &&& final(self).tabs@ == old(self).tabs@
                        &&& final(self).ignore_case == old(self).ignore_case
                        &&& if old(self).filter@.len() == 0 {
                            &&& final(self).filter@ == old(self).filter@
                            &&& final(self).selected == old(self).selected
                        } else {
                            &&& final(self).filter@ == old(self).filter@.drop_last()
                            &&& final(self).selected == first_of(final(self).view_positions())
                        }
                        &&& r.0
                        &&& r.1@.len() == 0
                    },
                    KeyAction::Append(c) => {
                        &&& final(self).tabs@ == old(self).tabs@
                        &&& final(self).ignore_case == old(self).ignore_case
                        &&& final(self).filter@ == old(self).filter@.push(c)
                        &&& final(self).selected == first_of(final(self).view_positions())
                        &&& r.0
                        &&& r.1@.len() == 0
                    },
                    KeyAction::Ignore => {
                        &&& final(self).same_content(*old(self))
                        &&& final(self).selected == old(self).selected
                        &&& !r.0
                        &&& r.1@.len() == 0
                    },
                },
                Event::Other => {
                    &&& final(self).same_content(*old(self))
                    &&& final(self).selected == old(self).selected
                    &&& !r.0
                    &&& r.1@.len() == 0
                },
            },
    {
        let mut cmds: Vec<Command> = Vec::new();
        match event {
            Event::TabUpdate(ts) => {
                let active = find_active(&ts);
                self.tabs = ts;
                match active {
                    Some(p) => self.selected = Some(p),
                    None => self.reset_selection(),
                }
                (true, cmds)
            },
            Event::Key(k) => match classify(k) {
                KeyAction::Close => {
                    cmds.push(Command::CloseFocus);
                    (false, cmds)
                },
                KeyAction::Down => {
                    self.select_down();
                    (true, cmds)
                },
                KeyAction::Up => {
                    self.select_up();
                    (true, cmds)
                },
                KeyAction::Confirm => {
                    if let Some(p) = self.selected {
                        if has_tab_at(&self.tabs, p) {
                            cmds.push(Command::CloseFocus);
                            cmds.push(Command::SwitchTabTo(p as u128 + 1));
                        }
                    }
                    assert(cmds@ =~= confirm_commands(self.tabs@, self.selected));
                    (false, cmds)
                },
                KeyAction::Erase => {
                    if self.filter.len() > 0 {
                        self.filter.pop();
                        self.reset_selection();
                    }
                    (true, cmds)
                },
                KeyAction::Append(c) => {
                    self.filter.push(c);
                    self.reset_selection();
                    (true, cmds)
                },
                KeyAction::Ignore => (false, cmds),
            },
            Event::Other => (false, cmds),
        }
    }

    /// The prompt text: the filter, or a placeholder while it is empty.
    pub fn prompt(&self) -> (r: String)
        ensures
            r@ == if self.filter@.len() == 0 {
                placeholder()
            } else {
                self.filter@
            },
    {
        if self.filter.len() == 0 {
            "(filter by index or name)".to_owned()
        } else {
            string_of(&self.filter)
        }
    }

    /// One row per viewable tab, best first, labelled `"{index}:{name}"` and
    /// flagged when the tab is active or selected.
    pub fn rows(&self) -> (r: Vec<Row>)
        ensures
            r@.len() == self.view_indices().len(),
            forall|k: int|
                0 <= k < r@.len() ==> {
                    let t = #[trigger] self.tabs@[self.view_indices()[k] as int];
                    &&& r@[k].label@ == row_label(t)
                    &&& r@[k].active == t.active
                    &&& r@[k].selected == (self.selected == Some(t.position))
                },
    {
        let idx = self.viewable_tabs();
        let n = self.tabs.len();
        proof {
            crate::rank::lemma_ranked_members(
                scores_spec(self.tabs@, self.filter@, self.ignore_case),
                positions(self.tabs@),
                self.tabs@.len(),
            );
        }
        let sep = vec![':'];
        assert(sep@ == seq![':']);
        let mut r: Vec<Row> = Vec::new();
        let mut k: usize = 0;
        while k < idx.len()
            invariant
                idx@ == self.view_indices(),
                sep@ == seq![':'],
                k <= idx@.len(),
                r@.len() == k,
                forall|x: usize| #[trigger] idx@.contains(x) ==> x < self.tabs@.len(),
                forall|j: int|
                    0 <= j < k ==> {
                        let t = #[trigger] self.tabs@[self.view_indices()[j] as int];
                        &&& r@[j].label@ == row_label(t)
                        &&& r@[j].active == t.active
                        &&& r@[j].selected == (self.selected == Some(t.position))
                    },
            decreases idx@.len() - k,
        {
            assert(idx@.contains(idx@[k as int]));
            let tab = &self.tabs[idx[k]];
            let text = label(tab, &sep);
            let selected = match self.selected {
                Some(p) => p == tab.position,
                None => false,
            };
            r.push(Row { label: string_of(&text), active: tab.active, selected });
            k = k + 1;
        }
        r
    }
}

} // verus!
