//! The logger: what each task has written, and the lines that show it.
//!
//! The logger keeps the lines of every task under the name of the task. In
//! serial mode a new line is shown as it comes; in parallel mode the whole
//! screen is drawn again after every line, with the lines of each task under
//! its title.

use vstd::prelude::*;
use vstd::string::StringExecFns;
use crate::table::{locate, names, position_of, values_of};
use crate::text::{chars_of, string_of};

verus! {

/// `text` without the occurrences of `pattern`, found from the left; an
/// occurrence that overlaps one found before it is not one.
pub open spec fn without(text: Seq<char>, pattern: Seq<char>) -> Seq<char>
    decreases text.len(),
{
    if pattern.len() == 0 || text.len() < pattern.len() {
        text
    } else if text.subrange(0, pattern.len() as int) == pattern {
        without(text.skip(pattern.len() as int), pattern)
    } else {
        seq![text[0]] + without(text.skip(1), pattern)
    }
}

/// The run of blanks that is taken out of every line that is shown.
pub open spec fn padding() -> Seq<char> {
    Seq::new(23, |i: int| ' ')
}

/// A line as it is shown: without carriage returns and without the padding.
pub open spec fn tidy(line: Seq<char>) -> Seq<char> {
    without(without(line, seq!['\r']), padding())
}

/// The text that starts green output, red output, and ends either.
pub open spec fn green() -> Seq<char> {
    "\x1b[32m"@
}

pub open spec fn red() -> Seq<char> {
    "\x1b[31m"@
}

pub open spec fn plain() -> Seq<char> {
    "\x1b[0m"@
}

/// The line that is kept for a line of standard output.
pub open spec fn out_line(content: Seq<char>) -> Seq<char> {
    "[Out]:"@ + content
}

/// The line that is kept for a line of standard error: in red.
pub open spec fn err_line(content: Seq<char>) -> Seq<char> {
    red() + "[Err]:"@ + content + plain()
}

/// The title of a task, in the given colour.
pub open spec fn title(colour: Seq<char>, task: Seq<char>) -> Seq<char> {
    colour + "Running Task "@ + task + plain()
}

/// A kept line as it is shown under the title of its task.
pub open spec fn shown(line: Seq<char>) -> Seq<char> {
    "  ╰─▶"@ + tidy(line)
}

/// The text that clears the screen.
pub open spec fn clear() -> Seq<char> {
    "\x1b[2J\x1b[H"@
}

/// The lines that show one task: its title in green, then its lines.
pub open spec fn block(task: Seq<char>, lines: Seq<Seq<char>>) -> Seq<Seq<char>> {
    seq![title(green(), task)] + Seq::new(lines.len(), |i: int| shown(lines[i]))
}

/// The lines that show the first `upto` tasks, in the order in which the
/// tasks first wrote.
pub open spec fn blocks(tasks: Seq<Seq<char>>, lines: Seq<Seq<Seq<char>>>, upto: int) -> Seq<
    Seq<char>,
>
    decreases upto,
{
    if upto <= 0 || upto > tasks.len() || upto > lines.len() {
        Seq::empty()
    } else {
        blocks(tasks, lines, upto - 1) + block(tasks[upto - 1], lines[upto - 1])
    }
}

/// The whole screen in parallel mode: cleared, then every task.
pub open spec fn screen(tasks: Seq<Seq<char>>, lines: Seq<Seq<Seq<char>>>) -> Seq<Seq<char>> {
    seq![clear()] + blocks(tasks, lines, tasks.len() as int)
}

/// The texts of the strings.
pub open spec fn texts(lines: Seq<String>) -> Seq<Seq<char>> {
    Seq::new(lines.len(), |i: int| lines[i]@)
}

/// `text[from..]` starts with `pattern`.
fn starts_with_at(text: &Vec<char>, from: usize, pattern: &Vec<char>) -> (b: bool)
    requires
        from <= text.len(),
    ensures
        b == (text.len() - from >= pattern.len() && text@.skip(from as int).subrange(
            0,
            pattern.len() as int,
        ) == pattern@),
{
    if text.len() - from < pattern.len() {
        return false;
    }
    let mut i: usize = 0;
    while i < pattern.len()
        invariant
            from <= text.len(),
            text.len() - from >= pattern.len(),
            i <= pattern.len(),
            forall|k: int| 0 <= k < i ==> text@[from + k] == pattern@[k],
        decreases pattern.len() - i,
    {
        if text[from + i] != pattern[i] {
            assert(text@.skip(from as int).subrange(0, pattern.len() as int)[i as int]
                != pattern@[i as int]);
            return false;
        }
        i += 1;
    }
    assert(text@.skip(from as int).subrange(0, pattern.len() as int) =~= pattern@);
    true
}

/// `text` without the occurrences of `pattern`.
pub fn strip(text: &Vec<char>, pattern: &Vec<char>) -> (r: Vec<char>)
    ensures
        r@ == without(text@, pattern@),
{
    let mut out: Vec<char> = Vec::new();
    let mut i: usize = 0;
    assert(text@.skip(0) =~= text@);
    while i < text.len()
        invariant
            i <= text.len(),
            without(text@, pattern@) == out@ + without(text@.skip(i as int), pattern@),
        decreases text.len() - i,
    {
        let ghost rest = text@.skip(i as int);
        if pattern.len() == 0 {
            proof {
                assert(rest.skip(1) =~= text@.skip(i + 1));
                assert(without(rest.skip(1), pattern@) == rest.skip(1));
                assert(rest =~= seq![rest[0]] + rest.skip(1));
                assert(out@.push(text@[i as int]) + text@.skip(i + 1) =~= out@ + rest);
            }
            out.push(text[i]);
            i += 1;
        } else if starts_with_at(text, i, pattern) {
            proof {
                assert(rest.skip(pattern.len() as int) =~= text@.skip(i + pattern.len()));
            }
            i += pattern.len();
        } else {
            proof {
                assert(rest.skip(1) =~= text@.skip(i + 1));
                if rest.len() < pattern.len() {
                    assert(rest =~= seq![rest[0]] + rest.skip(1));
                    lemma_short_kept(rest.skip(1), pattern@);
                }
                assert(out@.push(text@[i as int]) + without(text@.skip(i + 1), pattern@) =~= out@
                    + (seq![rest[0]] + without(rest.skip(1), pattern@)));
            }
            out.push(text[i]);
            i += 1;
        }
    }
    proof {
        assert(text@.skip(i as int) =~= Seq::<char>::empty());
        assert(out@ + Seq::<char>::empty() =~= out@);
    }
    out
}

/// A text shorter than the pattern holds no occurrence of it.
pub proof fn lemma_short_kept(text: Seq<char>, pattern: Seq<char>)
    requires
        text.len() < pattern.len(),
    ensures
        without(text, pattern) == text,
{
}

/// A line as it is shown under the title of its task.
pub fn show_line(line: &str) -> (s: String)
    ensures
        s@ == shown(line@),
{
    let chars = chars_of(line);
    let mut cr: Vec<char> = Vec::new();
    cr.push('\r');
    assert(cr@ =~= seq!['\r']);
    let mut blanks: Vec<char> = Vec::new();
    let mut i: usize = 0;
    while i < 23
        invariant
            i <= 23,
            blanks.len() == i,
            forall|k: int| 0 <= k < i ==> blanks@[k] == ' ',
        decreases 23 - i,
    {
        blanks.push(' ');
        i += 1;
    }
    assert(blanks@ =~= padding());
    let tidied = strip(&strip(&chars, &cr), &blanks);
    let mut s = String::from_str("  ╰─▶");
    s.append(string_of(&tidied).as_str());
    s
}

/// The title of a task in green.
pub fn green_title(task: &str) -> (s: String)
    ensures
        s@ == title(green(), task@),
{
    let mut s = String::from_str("\x1b[32m");
    s.append("Running Task ");
    s.append(task);
    s.append("\x1b[0m");
    assert(s@ =~= title(green(), task@));
    s
}

/// The title of a task in red.
pub fn red_title(task: &str) -> (s: String)
    ensures
        s@ == title(red(), task@),
{
    let mut s = String::from_str("\x1b[31m");
    s.append("Running Task ");
    s.append(task);
    s.append("\x1b[0m");
    assert(s@ =~= title(red(), task@));
    s
}

/// What a logger holds: the names of the tasks that have written, in the
/// order in which they first wrote, the lines of each, and the mode.
pub struct LogView {
    pub tasks: Seq<Seq<char>>,
    pub lines: Seq<Seq<Seq<char>>>,
    pub parallel: bool,
}

/// The log after `line` has been kept under `task`: behind the lines that
/// the task has written, or as the first line of a task that is new.
pub open spec fn noted(log: LogView, task: Seq<char>, line: Seq<char>) -> LogView {
    match position_of(log.tasks, task) {
        Some(i) => LogView { lines: log.lines.update(i, log.lines[i].push(line)), ..log },
        None => LogView { tasks: log.tasks.push(task), lines: log.lines.push(seq![line]), ..log },
    }
}

/// What is shown when `line` is kept under `task`: in parallel mode the
/// whole screen as it is then; in serial mode the line, under the title of
/// the task in the colour `colour` where this is the first line of the task.
pub open spec fn said(log: LogView, task: Seq<char>, line: Seq<char>, colour: Seq<char>) -> Seq<Seq<char>> {
    if log.parallel {
        screen(noted(log, task, line).tasks, noted(log, task, line).lines)
    } else if crate::table::contains_name(log.tasks, task) {
        seq![shown(line)]
    } else {
        seq![title(colour, task), shown(line)]
    }
}

/// The logger.
#[derive(Debug)]
pub struct PipelineLogger {
    contents: Vec<(String, Vec<String>)>,
    is_parallel: bool,
}

impl PipelineLogger {
    /// The names of the tasks that have written, in the order in which they
    /// first wrote.
    pub closed spec fn tasks(&self) -> Seq<Seq<char>> {
        names(self.contents@)
    }

    /// The lines of each task, in the order of `tasks`.
    pub closed spec fn lines(&self) -> Seq<Seq<Seq<char>>> {
        Seq::new(self.contents@.len(), |i: int| texts(self.contents@[i].1@))
    }

    /// Whether the logger is in parallel mode.
    pub closed spec fn parallel(&self) -> bool {
        self.is_parallel
    }

    /// What the logger holds.
    pub open spec fn log(&self) -> LogView {
        LogView { tasks: self.tasks(), lines: self.lines(), parallel: self.parallel() }
    }

    /// The lines that the task has written so far.
    pub open spec fn lines_of(&self, task: Seq<char>) -> Seq<Seq<char>> {
        match position_of(self.tasks(), task) {
            Some(i) => self.lines()[i],
            None => Seq::empty(),
        }
    }

    /// A logger in serial mode, in which no task has written.
    pub fn new() -> (l: Self)
        ensures
            l.tasks() == Seq::<Seq<char>>::empty(),
            l.lines() == Seq::<Seq<Seq<char>>>::empty(),
            !l.parallel(),
    {
        let l = Self { contents: Vec::new(), is_parallel: false };
        assert(l.tasks() =~= Seq::<Seq<char>>::empty());
        assert(l.lines() =~= Seq::<Seq<Seq<char>>>::empty());
        l
    }

    /// Switches between parallel and serial mode.
    pub fn set_parallel(&mut self, b: bool)
        ensures
            final(self).parallel() == b,
            final(self).tasks() == old(self).tasks(),
            final(self).lines() == old(self).lines(),
    {
        self.is_parallel = b;
    }

    /// Keeps `line` under `task`, and says whether the task had written
    /// before.
    fn keep(&mut self, task: &str, line: String) -> (known: bool)
        ensures
            known == crate::table::contains_name(old(self).tasks(), task@),
            final(self).parallel() == old(self).parallel(),
            known ==> final(self).tasks() == old(self).tasks() && final(self).lines() == old(
                self,
            ).lines().update(
                position_of(old(self).tasks(), task@)->0,
                old(self).lines_of(task@).push(line@),
            ),
            !known ==> final(self).tasks() == old(self).tasks().push(task@) && final(self).lines()
                == old(self).lines().push(seq![line@]),
    {
        match locate(&self.contents, task) {
            Some(i) => {
                proof {
                    crate::table::lemma_position_of(self.tasks(), task@);
                }
                self.contents.push((String::new(), Vec::new()));
                let (name, mut lines) = self.contents.swap_remove(i);
                let ghost before = lines@;
                lines.push(line);
                assert(texts(lines@) =~= texts(before).push(line@));
                self.contents.set(i, (name, lines));
                assert(self.tasks() =~= old(self).tasks());
                assert(self.lines() =~= old(self).lines().update(
                    i as int,
                    old(self).lines_of(task@).push(line@),
                ));
                true
            },
            None => {
                let mut lines: Vec<String> = Vec::new();
                lines.push(line);
                assert(texts(lines@) =~= seq![line@]);
                self.contents.push((String::from_str(task), lines));
                assert(self.tasks() =~= old(self).tasks().push(task@));
                assert(self.lines() =~= old(self).lines().push(seq![line@]));
                false
            },
        }
    }

    /// The lines that draw the whole screen.
    fn draw(&self) -> (out: Vec<String>)
        ensures
            texts(out@) == screen(self.tasks(), self.lines()),
    {
        let mut out: Vec<String> = Vec::new();
        out.push(String::from_str("\x1b[2J\x1b[H"));
        let mut i: usize = 0;
        assert(texts(out@) =~= seq![clear()] + blocks(self.tasks(), self.lines(), 0));
        while i < self.contents.len()
            invariant
                i <= self.contents.len(),
                self.tasks().len() == self.contents.len(),
                self.lines().len() == self.contents.len(),
                texts(out@) == seq![clear()] + blocks(self.tasks(), self.lines(), i as int),
            decreases self.contents.len() - i,
        {
            let ghost start = texts(out@);
            let ghost task = self.tasks()[i as int];
            let ghost lines = self.lines()[i as int];
            out.push(green_title(self.contents[i].0.as_str()));
            let mut j: usize = 0;
            assert(texts(out@) =~= start + seq![title(green(), task)] + Seq::new(
                0,
                |k: int| shown(lines[k]),
            ));
            while j < self.contents[i].1.len()
                invariant
                    i < self.contents.len(),
                    j <= self.contents[i as int].1.len(),
                    lines == texts(self.contents[i as int].1@),
                    texts(out@) == start + seq![title(green(), task)] + Seq::new(
                        j as nat,
                        |k: int| shown(lines[k]),
                    ),
                decreases self.contents[i as int].1.len() - j,
            {
                let ghost sofar = texts(out@);
                out.push(show_line(self.contents[i].1[j].as_str()));
                assert(texts(out@) =~= sofar.push(shown(lines[j as int])));
                assert(texts(out@) =~= start + seq![title(green(), task)] + Seq::new(
                    (j + 1) as nat,
                    |k: int| shown(lines[k]),
                ));
                j += 1;
            }
            assert(texts(out@) =~= start + block(task, lines));
            assert(texts(out@) =~= seq![clear()] + blocks(self.tasks(), self.lines(), i + 1));
            i += 1;
        }
        out
    }

    /// What is to be shown after `line` has been kept under `task`.
    fn after_keeping(&self, task: &str, line: &str, known: bool, red: bool) -> (out: Vec<String>)
        ensures
            texts(out@) == (if self.parallel() {
                screen(self.tasks(), self.lines())
            } else if known {
                seq![shown(line@)]
            } else {
                seq![
                    title(
                        if red {
                            crate::logger::red()
                        } else {
                            green()
                        },
                        task@,
                    ),
                    shown(line@),
                ]
            }),
    {
        if self.is_parallel {
            self.draw()
        } else {
            let mut out: Vec<String> = Vec::new();
            if !known {
                if red {
                    out.push(red_title(task));
                } else {
                    out.push(green_title(task));
                }
            }
            out.push(show_line(line));
            assert(texts(out@) =~= if known {
                seq![shown(line@)]
            } else {
                seq![
                    title(
                        if red {
                            crate::logger::red()
                        } else {
                            green()
                        },
                        task@,
                    ),
                    shown(line@),
                ]
            });
            out
        }
    }

    /// Keeps a line of standard output of `task` and gives the lines to
    /// show for it: in serial mode the title of the task, where this is its
    /// first line, and the line; in parallel mode the whole screen.
    pub fn task_out(&mut self, task: &str, content: &str) -> (out: Vec<String>)
        ensures
            final(self).log() == noted(old(self).log(), task@, out_line(content@)),
            texts(out@) == said(old(self).log(), task@, out_line(content@), green()),
            final(self).lines_of(task@) == old(self).lines_of(task@).push(out_line(content@)),
    {
        let mut line = String::from_str("[Out]:");
        line.append(content);
        let known = self.keep(task, line.clone());
        proof {
            crate::table::lemma_position_of(old(self).tasks(), task@);
            crate::table::lemma_position_push(old(self).tasks(), task@, task@);
        }
        self.after_keeping(task, line.as_str(), known, false)
    }

    /// Keeps a line of standard error of `task`, in red, and gives the
    /// lines to show for it, as `task_out` does; the title of a task whose
    /// first line is one of standard error is red.
    pub fn task_err(&mut self, task: &str, content: &str) -> (out: Vec<String>)
        ensures
            final(self).log() == noted(old(self).log(), task@, err_line(content@)),
            texts(out@) == said(old(self).log(), task@, err_line(content@), red()),
            final(self).lines_of(task@) == old(self).lines_of(task@).push(err_line(content@)),
    {
        let mut line = String::from_str("\x1b[31m");
        line.append("[Err]:");
        line.append(content);
        line.append("\x1b[0m");
        assert(line@ =~= err_line(content@));
        let known = self.keep(task, line.clone());
        proof {
            crate::table::lemma_position_of(old(self).tasks(), task@);
            crate::table::lemma_position_push(old(self).tasks(), task@, task@);
        }
        self.after_keeping(task, line.as_str(), known, true)
    }
}

} // verus!
