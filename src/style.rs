use vstd::prelude::*;
use owo_colors::OwoColorize;
use crate::switcher::{State, placeholder};

verus! {

/// The terminal escape `ESC [ code m`.
pub open spec fn sgr(code: Seq<char>) -> Seq<char> {
    seq!['\x1b', '['] + code + seq!['m']
}

/// `s` between the escapes that switch a style on and off.
pub open spec fn styled(on: Seq<char>, s: Seq<char>, off: Seq<char>) -> Seq<char> {
    sgr(on) + s + sgr(off)
}

pub open spec fn bold_of(s: Seq<char>) -> Seq<char> {
    styled(seq!['1'], s, seq!['0'])
}

pub open spec fn dimmed_of(s: Seq<char>) -> Seq<char> {
    styled(seq!['2'], s, seq!['0'])
}

pub open spec fn italic_of(s: Seq<char>) -> Seq<char> {
    styled(seq!['3'], s, seq!['0'])
}

pub open spec fn red_of(s: Seq<char>) -> Seq<char> {
    styled(seq!['3', '1'], s, seq!['3', '9'])
}

pub open spec fn cyan_of(s: Seq<char>) -> Seq<char> {
    styled(seq!['3', '6'], s, seq!['3', '9'])
}

pub open spec fn on_cyan_of(s: Seq<char>) -> Seq<char> {
    styled(seq!['4', '6'], s, seq!['4', '9'])
}

/// Relies on owo_colors' `bold`: its display writes `ESC[1m`, the text, `ESC[0m`.
#[verifier::external_body]
fn bold(s: &Vec<char>) -> (r: Vec<char>)
    ensures
        r@ == bold_of(s@),
{
    let t: String = s.iter().collect();
    t.bold().to_string().chars().collect()
}

/// Relies on owo_colors' `dimmed`: its display writes `ESC[2m`, the text, `ESC[0m`.
#[verifier::external_body]
fn dimmed(s: &Vec<char>) -> (r: Vec<char>)
    ensures
        r@ == dimmed_of(s@),
{
    let t: String = s.iter().collect();
    t.dimmed().to_string().chars().collect()
}

/// Relies on owo_colors' `italic`: its display writes `ESC[3m`, the text, `ESC[0m`.
#[verifier::external_body]
fn italic(s: &Vec<char>) -> (r: Vec<char>)
    ensures
        r@ == italic_of(s@),
{
    let t: String = s.iter().collect();
    t.italic().to_string().chars().collect()
}

/// Relies on owo_colors' `red`: its display writes `ESC[31m`, the text, `ESC[39m`.
#[verifier::external_body]
fn red(s: &Vec<char>) -> (r: Vec<char>)
    ensures
        r@ == red_of(s@),
{
    let t: String = s.iter().collect();
    t.red().to_string().chars().collect()
}

/// Relies on owo_colors' `cyan`: its display writes `ESC[36m`, the text, `ESC[39m`.
#[verifier::external_body]
fn cyan(s: &Vec<char>) -> (r: Vec<char>)
    ensures
        r@ == cyan_of(s@),
{
    let t: String = s.iter().collect();
    t.cyan().to_string().chars().collect()
}

/// Relies on owo_colors' `on_cyan`: its display writes `ESC[46m`, the text, `ESC[49m`.
#[verifier::external_body]
fn on_cyan(s: &Vec<char>) -> (r: Vec<char>)
    ensures
        r@ == on_cyan_of(s@),
{
    let t: String = s.iter().collect();
    t.on_cyan().to_string().chars().collect()
}

/// The styled prompt line: a bold cyan `>`, a space, then the prompt text
/// dimmed and in italics.
pub open spec fn prompt_line(prompt: Seq<char>) -> Seq<char> {
    bold_of(cyan_of(seq!['>'])) + seq![' '] + italic_of(dimmed_of(prompt))
}

/// A styled list line: bold red when active, then bold on cyan when selected.
pub open spec fn row_line(label: Seq<char>, active: bool, selected: bool) -> Seq<char> {
    let base = if active {
        bold_of(red_of(label))
    } else {
        label
    };
    if selected {
        bold_of(on_cyan_of(base))
    } else {
        base
    }
}

impl State {
    /// The prompt line as drawn.
    pub fn styled_prompt(&self) -> (r: String)
        ensures
            r@ == prompt_line(
                if self.filter@.len() == 0 {
                    placeholder()
                } else {
                    self.filter@
                },
            ),
    {
        let arrow = vec!['>'];
        let mut line = bold(&cyan(&arrow));
        line.push(' ');
        let text = crate::matcher::chars_of(self.prompt().as_str());
        let tail = italic(&dimmed(&text));
        let mut k: usize = 0;
        let ghost head = line@;
        while k < tail.len()
            invariant
                k <= tail@.len(),
                line@ == head + tail@.subrange(0, k as int),
            decreases tail@.len() - k,
        {
            line.push(tail[k]);
            k = k + 1;
            assert(line@ =~= head + tail@.subrange(0, k as int));
        }
        assert(tail@.subrange(0, tail@.len() as int) =~= tail@);
        assert(arrow@ =~= seq!['>']);
        crate::matcher::string_of(&line)
    }

    /// The list lines as drawn, one per viewable tab, best first.
    pub fn styled_rows(&self) -> (r: Vec<String>)
        ensures
            r@.len() == self.view_indices().len(),
            forall|k: int|
                0 <= k < r@.len() ==> {
                    let t = self.tabs@[self.view_indices()[k] as int];
                    #[trigger] r@[k]@ == row_line(
                        crate::switcher::row_label(t),
                        t.active,
                        self.selected == Some(t.position),
                    )
                },
    {
        let rows = self.rows();
        let mut r: Vec<String> = Vec::new();
        let mut k: usize = 0;
        while k < rows.len()
            invariant
                k <= rows@.len(),
                r@.len() == k,
                rows@.len() == self.view_indices().len(),
                forall|j: int|
                    0 <= j < rows@.len() ==> {
                        let t = #[trigger] self.tabs@[self.view_indices()[j] as int];
                        &&& rows@[j].label@ == crate::switcher::row_label(t)
                        &&& rows@[j].active == t.active
                        &&& rows@[j].selected == (self.selected == Some(t.position))
                    },
                forall|j: int|
                    0 <= j < k ==> {
                        let t = self.tabs@[self.view_indices()[j] as int];
                        #[trigger] r@[j]@ == row_line(
                            crate::switcher::row_label(t),
                            t.active,
                            self.selected == Some(t.position),
                        )
                    },
            decreases rows@.len() - k,
        {
            let row = &rows[k];
            let ghost t = self.tabs@[self.view_indices()[k as int] as int];
            let label = crate::matcher::chars_of(row.label.as_str());
            let base = if row.active {
                bold(&red(&label))
            } else {
                label
            };
            let line = if row.selected {
                bold(&on_cyan(&base))
            } else {
                base
            };
            r.push(crate::matcher::string_of(&line));
            k = k + 1;
        }
        r
    }
}

} // verus!
