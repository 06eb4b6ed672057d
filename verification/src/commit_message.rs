//! A commit message as a sequence of paragraphs.

use crate::base::Paragraph;
use crate::text::{
    skip_trailing_whitespace, skip_whitespace, split, string_from_chars, to_chars, trim,
};
use std::collections::VecDeque;
use vstd::prelude::*;

verus! {

/// Whether a line, once trimmed, belongs to the message: it is not blank and
/// is no comment, that is, does not start with `#`.
pub open spec fn is_message_line(line: Seq<char>) -> bool {
    line.len() > 0 && line[0] != '#'
}

/// Every line of `lines` without the white space around it.
pub open spec fn trim_each(lines: Seq<Seq<char>>) -> Seq<Seq<char>> {
    Seq::new(lines.len(), |i: int| trim(lines[i]))
}

/// The lines of `text`, each without the white space around it.
pub open spec fn trimmed_lines(text: Seq<char>) -> Seq<Seq<char>> {
    trim_each(split(text, '\n'))
}

/// The message lines among `lines`, in order.
pub open spec fn message_lines(lines: Seq<Seq<char>>) -> Seq<Seq<char>> {
    lines.filter(|line: Seq<char>| is_message_line(line))
}

/// The paragraph that is still open at the end of `lines`: the message lines
/// that follow the last line which is none.
pub open spec fn open_paragraph(lines: Seq<Seq<char>>) -> Seq<Seq<char>>
    decreases lines.len(),
{
    if lines.len() == 0 {
        Seq::empty()
    } else if is_message_line(lines.last()) {
        open_paragraph(lines.drop_last()).push(lines.last())
    } else {
        Seq::empty()
    }
}

/// The paragraphs that a blank line or a comment within `lines` has closed.
pub open spec fn closed_paragraphs(lines: Seq<Seq<char>>) -> Seq<Seq<Seq<char>>>
    decreases lines.len(),
{
    if lines.len() == 0 {
        Seq::empty()
    } else {
        let closed = closed_paragraphs(lines.drop_last());
        let open = open_paragraph(lines.drop_last());
        if !is_message_line(lines.last()) && open.len() > 0 {
            closed.push(open)
        } else {
            closed
        }
    }
}

/// The paragraphs of `lines`: the maximal runs of message lines that follow
/// one another, in order.
pub open spec fn paragraphs_of(lines: Seq<Seq<char>>) -> Seq<Seq<Seq<char>>> {
    if open_paragraph(lines).len() > 0 {
        closed_paragraphs(lines).push(open_paragraph(lines))
    } else {
        closed_paragraphs(lines)
    }
}

/// The paragraphs of the text `text`: its lines are trimmed, and blank lines
/// and comment lines part the paragraphs.
pub open spec fn segment(text: Seq<char>) -> Seq<Seq<Seq<char>>> {
    paragraphs_of(trimmed_lines(text))
}

/// The number of message lines that `lines` starts with.
pub open spec fn run_length(lines: Seq<Seq<char>>) -> nat
    decreases lines.len(),
{
    if lines.len() > 0 && is_message_line(lines[0]) {
        1 + run_length(lines.drop_first())
    } else {
        0
    }
}

/// Whether all of `lines` are message lines.
pub open spec fn all_message_lines(lines: Seq<Seq<char>>) -> bool {
    forall|i: int| 0 <= i < lines.len() ==> is_message_line(#[trigger] lines[i])
}

/// Whether each of `paragraphs` has a line and holds message lines only.
pub open spec fn message_paragraphs(paragraphs: Seq<Seq<Seq<char>>>) -> bool {
    forall|i: int|
        0 <= i < paragraphs.len() ==> {
            &&& (#[trigger] paragraphs[i]).len() > 0
            &&& forall|j: int|
                0 <= j < paragraphs[i].len() ==> is_message_line(#[trigger] paragraphs[i][j])
        }
}

/// The views of the paragraphs in `paragraphs`.
pub open spec fn paragraph_views(paragraphs: Seq<Paragraph>) -> Seq<Seq<Seq<char>>> {
    Seq::new(paragraphs.len(), |i: int| paragraphs[i]@)
}

/// The paragraphs closed within `lines`, followed by the lines of the
/// paragraph still open, are the message lines of `lines`. Each closed
/// paragraph has a line, and all of them hold message lines only.
pub proof fn lemma_paragraphs_keep_lines(lines: Seq<Seq<char>>)
    ensures
        closed_paragraphs(lines).flatten() + open_paragraph(lines) == message_lines(lines),
        message_paragraphs(closed_paragraphs(lines)),
        forall|j: int|
            0 <= j < open_paragraph(lines).len() ==> is_message_line(
                #[trigger] open_paragraph(lines)[j],
            ),
    decreases lines.len(),
{
    let pred = |line: Seq<char>| is_message_line(line);
    if lines.len() == 0 {
        reveal(Seq::filter);
        assert(closed_paragraphs(lines).flatten() + open_paragraph(lines) =~= message_lines(lines));
    } else {
        let shorter = lines.drop_last();
        let line = lines.last();
        lemma_paragraphs_keep_lines(shorter);
        assert(shorter.push(line) =~= lines);
        shorter.lemma_filter_push(line, pred);
        let closed = closed_paragraphs(shorter);
        let open = open_paragraph(shorter);
        if is_message_line(line) {
            assert(closed.flatten() + open.push(line) =~= (closed.flatten() + open).push(line));
        } else if open.len() > 0 {
            closed.lemma_flatten_push(open);
            assert(closed.push(open).flatten() + Seq::<Seq<char>>::empty() =~= closed.flatten()
                + open);
        } else {
            assert(closed.flatten() + Seq::<Seq<char>>::empty() =~= closed.flatten() + open);
        }
    }
}

/// Segmenting keeps the lines of the message: the paragraphs of `lines`, put
/// one after the other, are the message lines of `lines` in their order: no
/// blank line, no comment, and nothing lost. No paragraph is without lines.
pub proof fn lemma_paragraphs_flatten(lines: Seq<Seq<char>>)
    ensures
        paragraphs_of(lines).flatten() == message_lines(lines),
        message_paragraphs(paragraphs_of(lines)),
{
    lemma_paragraphs_keep_lines(lines);
    let closed = closed_paragraphs(lines);
    let open = open_paragraph(lines);
    if open.len() > 0 {
        closed.lemma_flatten_push(open);
    } else {
        assert(closed.flatten() + open =~= closed.flatten());
    }
}

/// The message lines that `lines` starts with end where `lines` ends or
/// where a line is no message line.
pub proof fn lemma_run_length(lines: Seq<Seq<char>>)
    ensures
        run_length(lines) <= lines.len(),
        all_message_lines(lines.take(run_length(lines) as int)),
        run_length(lines) < lines.len() ==> !is_message_line(lines[run_length(lines) as int]),
    decreases lines.len(),
{
    if lines.len() > 0 && is_message_line(lines[0]) {
        let rest = lines.drop_first();
        lemma_run_length(rest);
        let n = run_length(lines) as int;
        assert forall|i: int| 0 <= i < n implies is_message_line(#[trigger] lines.take(n)[i]) by {
            if i > 0 {
                assert(lines.take(n)[i] == rest.take(n - 1)[i - 1]);
            }
        }
    }
}

/// Lines that are all message lines are one open paragraph, and none is
/// closed.
proof fn lemma_run_is_open(lines: Seq<Seq<char>>)
    requires
        all_message_lines(lines),
    ensures
        open_paragraph(lines) == lines,
        closed_paragraphs(lines) == Seq::<Seq<Seq<char>>>::empty(),
    decreases lines.len(),
{
    if lines.len() > 0 {
        let shorter = lines.drop_last();
        assert forall|i: int| 0 <= i < shorter.len() implies is_message_line(
            #[trigger] shorter[i],
        ) by {
            assert(shorter[i] == lines[i]);
        }
        lemma_run_is_open(shorter);
        assert(is_message_line(lines[lines.len() - 1]));
        assert(shorter.push(lines.last()) =~= lines);
    } else {
        assert(lines =~= Seq::<Seq<char>>::empty());
    }
}

/// A line that is no message line in front of `rest` changes nothing in the
/// paragraphs of `rest`.
proof fn lemma_separator_in_front(line: Seq<char>, rest: Seq<Seq<char>>)
    requires
        !is_message_line(line),
    ensures
        open_paragraph(seq![line] + rest) == open_paragraph(rest),
        closed_paragraphs(seq![line] + rest) == closed_paragraphs(rest),
    decreases rest.len(),
{
    let lines = seq![line] + rest;
    if rest.len() == 0 {
        assert(lines.drop_last() =~= Seq::<Seq<char>>::empty());
        assert(lines.last() == line);
        assert(open_paragraph(lines.drop_last()).len() == 0);
        assert(closed_paragraphs(lines.drop_last()).len() == 0);
    } else {
        lemma_separator_in_front(line, rest.drop_last());
        assert(lines.drop_last() =~= seq![line] + rest.drop_last());
        assert(lines.last() == rest.last());
    }
}

/// A paragraph `run` in front of lines `rest` that start with a line which
/// is no message line is closed before `rest` and comes first among the
/// closed paragraphs.
proof fn lemma_run_in_front(run: Seq<Seq<char>>, rest: Seq<Seq<char>>)
    requires
        run.len() > 0,
        all_message_lines(run),
        rest.len() > 0,
        !is_message_line(rest[0]),
    ensures
        open_paragraph(run + rest) == open_paragraph(rest),
        closed_paragraphs(run + rest) == seq![run] + closed_paragraphs(rest),
    decreases rest.len(),
{
    let lines = run + rest;
    assert(lines.last() == rest.last());
    if rest.len() == 1 {
        lemma_run_is_open(run);
        assert(lines.drop_last() =~= run);
        assert(rest.drop_last() =~= Seq::<Seq<char>>::empty());
        assert(closed_paragraphs(rest.drop_last()).len() == 0);
        assert(open_paragraph(rest.drop_last()).len() == 0);
        assert(closed_paragraphs(lines) =~= seq![run] + closed_paragraphs(rest));
    } else {
        assert(rest.drop_last()[0] == rest[0]);
        lemma_run_in_front(run, rest.drop_last());
        assert(lines.drop_last() =~= run + rest.drop_last());
        assert(closed_paragraphs(lines) =~= seq![run] + closed_paragraphs(rest));
    }
}

/// The paragraphs are the maximal runs of message lines. Read from the
/// front: where the first line is no message line, the paragraphs are those
/// of the lines after it; where it is one, the first paragraph is made of
/// all the message lines that the lines start with, and the other
/// paragraphs are those of the lines that follow them.
pub proof fn lemma_paragraphs_are_runs(lines: Seq<Seq<char>>)
    ensures
        lines.len() == 0 ==> paragraphs_of(lines) == Seq::<Seq<Seq<char>>>::empty(),
        lines.len() > 0 && !is_message_line(lines[0]) ==> paragraphs_of(lines) == paragraphs_of(
            lines.drop_first(),
        ),
        lines.len() > 0 && is_message_line(lines[0]) ==> paragraphs_of(lines) == seq![
            lines.take(run_length(lines) as int),
        ] + paragraphs_of(lines.skip(run_length(lines) as int)),
{
    if lines.len() > 0 {
        if !is_message_line(lines[0]) {
            lemma_separator_in_front(lines[0], lines.drop_first());
            assert(seq![lines[0]] + lines.drop_first() =~= lines);
        } else {
            lemma_run_length(lines);
            let n = run_length(lines) as int;
            let run = lines.take(n);
            let rest = lines.skip(n);
            assert(run + rest =~= lines);
            if rest.len() == 0 {
                assert(run =~= lines);
                lemma_run_is_open(lines);
                assert(paragraphs_of(lines) =~= seq![run] + paragraphs_of(rest));
            } else {
                assert(rest[0] == lines[n]);
                lemma_run_in_front(run, rest);
                assert(paragraphs_of(lines) =~= seq![run] + paragraphs_of(rest));
            }
        }
    }
}

/// Segmenting a text and flattening the paragraphs again gives the trimmed
/// lines of the text that are neither blank nor a comment, in their order.
pub proof fn lemma_segment_flatten(text: Seq<char>)
    ensures
        segment(text).flatten() == message_lines(trimmed_lines(text)),
        message_paragraphs(segment(text)),
{
    lemma_paragraphs_flatten(trimmed_lines(text));
}

/// A commit message, split into its paragraphs.
pub struct CommitMessage {
    pub paragraphs: Vec<Paragraph>,
}

impl View for CommitMessage {
    type V = Seq<Seq<Seq<char>>>;

    open spec fn view(&self) -> Seq<Seq<Seq<char>>> {
        paragraph_views(self.paragraphs@)
    }
}

impl CommitMessage {
    /// Whether `line`, already trimmed, is a line of the message rather than
    /// a blank line or a comment.
    pub fn is_message_line(line: &str) -> (b: bool)
        ensures
            b == is_message_line(line@),
    {
        if line.is_empty() {
            return false;
        }
        line.get_char(0) != '#'
    }

    /// The paragraphs of `file_content`.
    pub fn from(file_content: &str) -> (message: Self)
        ensures
            message@ == segment(file_content@),
            message_paragraphs(message@),
            message@.flatten() == message_lines(trimmed_lines(file_content@)),
            forall|i: int| 0 <= i < message.paragraphs@.len() ==> message.paragraphs@[i].wf(),
    {
        let chars = to_chars(file_content);
        let n = chars.len();
        let mut paragraphs: Vec<Paragraph> = Vec::new();
        let mut current = Paragraph::new();
        let mut start: usize = 0;
        let mut i: usize = 0;
        assert(chars@.take(0) =~= Seq::<char>::empty());
        assert(split(chars@.take(0), '\n').drop_last() =~= Seq::<Seq<char>>::empty());
        assert(trim_each(Seq::<Seq<char>>::empty()) =~= Seq::<Seq<char>>::empty());
        assert(paragraph_views(paragraphs@) =~= Seq::<Seq<Seq<char>>>::empty());
        assert(chars@.subrange(0, 0) =~= split(chars@.take(0), '\n').last());
        loop
            invariant_except_break
                i <= n,
                paragraph_views(paragraphs@) == closed_paragraphs(
                    trim_each(split(chars@.take(i as int), '\n').drop_last()),
                ),
                current@ == open_paragraph(
                    trim_each(split(chars@.take(i as int), '\n').drop_last()),
                ),
            invariant
                n == chars.len(),
                start <= i,
                split(chars@.take(i as int), '\n').len() >= 1,
                chars@.subrange(start as int, i as int) == split(chars@.take(i as int), '\n').last(),
            ensures
                i == n,
                paragraph_views(paragraphs@) == closed_paragraphs(
                    trim_each(split(chars@.take(i as int), '\n')),
                ),
                current@ == open_paragraph(trim_each(split(chars@.take(i as int), '\n'))),
            decreases n - i,
        {
            let ghost pieces = split(chars@.take(i as int), '\n');
            let ghost lines = trim_each(pieces.drop_last());
            if i == n || chars[i] == '\n' {
                let from = skip_whitespace(&chars, start, i);
                let to = skip_trailing_whitespace(&chars, from, i);
                let ghost line = chars@.subrange(from as int, to as int);
                assert(line == trim(pieces.last()));
                assert(trim_each(pieces) =~= lines.push(line));
                assert(lines.push(line).drop_last() =~= lines);
                if to > from && chars[from] != '#' {
                    assert(is_message_line(line));
                    let ghost open = current@;
                    current.lines.push(string_from_chars(&chars, from, to));
                    assert(current@ =~= open.push(line));
                } else {
                    assert(!is_message_line(line));
                    if current.len() > 0 {
                        let ghost closed = paragraph_views(paragraphs@);
                        paragraphs.push(current);
                        assert(paragraph_views(paragraphs@) =~= closed.push(
                            open_paragraph(lines),
                        ));
                    }
                    current = Paragraph::new();
                }
                if i == n {
                    break ;
                }
                start = i + 1;
                assert(chars@.take(i as int + 1).drop_last() =~= chars@.take(i as int));
                assert(split(chars@.take(i as int + 1), '\n') =~= pieces.push(
                    Seq::<char>::empty(),
                ));
                assert(split(chars@.take(i as int + 1), '\n').drop_last() =~= pieces);
                assert(chars@.subrange(start as int, i as int + 1) =~= Seq::<char>::empty());
            } else {
                assert(chars@.take(i as int + 1).drop_last() =~= chars@.take(i as int));
                assert(split(chars@.take(i as int + 1), '\n') =~= pieces.drop_last().push(
                    pieces.last().push(chars@[i as int]),
                ));
                assert(split(chars@.take(i as int + 1), '\n').drop_last() =~= pieces.drop_last());
                assert(chars@.subrange(start as int, i as int + 1) =~= pieces.last().push(
                    chars@[i as int],
                ));
            }
            i += 1;
        }
        assert(chars@.take(n as int) =~= chars@);
        if current.len() > 0 {
            let ghost closed = paragraph_views(paragraphs@);
            paragraphs.push(current);
            assert(paragraph_views(paragraphs@) =~= closed.push(
                open_paragraph(trimmed_lines(chars@)),
            ));
        }
        proof {
            lemma_segment_flatten(file_content@);
            assert forall|i: int| 0 <= i < paragraphs@.len() implies paragraphs@[i].wf() by {
                let lines = paragraph_views(paragraphs@)[i];
                assert forall|j: int| 0 <= j < lines.len() implies (#[trigger] lines[j]).len()
                    > 0 by {
                    assert(is_message_line(lines[j]));
                }
            }
        }
        CommitMessage { paragraphs }
    }

    /// The paragraphs, copied into a queue that can be taken from at both
    /// ends.
    pub fn get_paragraphs(&self) -> (queue: VecDeque<Paragraph>)
        ensures
            paragraph_views(queue@) == self@,
    {
        let mut queue: VecDeque<Paragraph> = VecDeque::with_capacity(self.paragraphs.len());
        let mut i: usize = 0;
        while i < self.paragraphs.len()
            invariant
                i <= self.paragraphs.len(),
                queue@.len() == i,
                paragraph_views(queue@) == self@.take(i as int),
            decreases self.paragraphs.len() - i,
        {
            let ghost copied = queue@;
            queue.push_back(Paragraph::from(&self.paragraphs[i]));
            assert forall|j: int| 0 <= j < i + 1 implies paragraph_views(queue@)[j] == self@[j] by {
                if j < i {
                    assert(paragraph_views(copied)[j] == self@.take(i as int)[j]);
                }
            }
            assert(paragraph_views(queue@) =~= self@.take(i as int + 1));
            i += 1;
        }
        assert(self@.take(i as int) =~= self@);
        queue
    }

    /// The paragraph at position `num`, if there is one.
    pub fn get_paragraph(&self, num: usize) -> (paragraph: Option<&Paragraph>)
        ensures
            num < self@.len() ==> paragraph == Some(&self.paragraphs@[num as int]),
            num >= self@.len() ==> paragraph is None,
    {
        if num >= self.paragraphs.len() {
            return None;
        }
        Some(&self.paragraphs[num])
    }
}

} // verus!
