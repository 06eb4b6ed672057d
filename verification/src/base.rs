//! Paragraphs of a commit message, and the error that parsing reports.

use crate::text::{append_chars, push_char, skip_whitespace, string_views, to_chars, trim_start};
use vstd::prelude::*;

verus! {

/// Why a piece of text is no conventional commit: the offending line and a
/// reason for a human reader.
#[derive(Debug)]
pub struct ParseError {
    pub line: String,
    pub reason: String,
}

/// What a [`ParseError`] holds, as plain text.
pub struct ParseErrorView {
    pub line: Seq<char>,
    pub reason: Seq<char>,
}

impl View for ParseError {
    type V = ParseErrorView;

    open spec fn view(&self) -> ParseErrorView {
        ParseErrorView { line: self.line@, reason: self.reason@ }
    }
}

impl ParseError {
    /// An error about `line`, for the given reason.
    pub fn new(line: &str, reason: &str) -> (e: Self)
        ensures
            e@ == (ParseErrorView { line: line@, reason: reason@ }),
    {
        ParseError { line: String::from_str(line), reason: String::from_str(reason) }
    }

    /// The message shown to the user: the reason.
    pub fn to_string(&self) -> (s: String)
        ensures
            s@ == self.reason@,
    {
        self.reason.clone()
    }
}

/// The result `r`, with what it holds replaced by its view.
pub open spec fn result_view<T: View, E: View>(r: Result<T, E>) -> Result<T::V, E::V> {
    match r {
        Ok(value) => Ok(value@),
        Err(error) => Err(error@),
    }
}

/// Whether `line` continues the line before it: it starts with a space or a
/// tab.
pub open spec fn is_continuation(line: Seq<char>) -> bool {
    line.len() > 0 && (line[0] == ' ' || line[0] == '\t')
}

/// `lines` with every continuation line joined to the line before it: the
/// two are put together with one space between them, and the continuation
/// loses the white space it starts with. The first line has no line before
/// it and always stays a line of its own.
pub open spec fn fold_lines(lines: Seq<Seq<char>>) -> Seq<Seq<char>>
    decreases lines.len(),
{
    if lines.len() == 0 {
        Seq::empty()
    } else {
        let before = fold_lines(lines.drop_last());
        let line = lines.last();
        if before.len() > 0 && is_continuation(line) {
            before.drop_last().push(before.last() + seq![' '] + trim_start(line))
        } else {
            before.push(line)
        }
    }
}

/// Whether no line of `lines` is empty.
pub open spec fn no_empty_line(lines: Seq<Seq<char>>) -> bool {
    forall|i: int| 0 <= i < lines.len() ==> (#[trigger] lines[i]).len() > 0
}

/// Whether no line of `lines` but perhaps the first is a continuation.
pub open spec fn no_continuation(lines: Seq<Seq<char>>) -> bool {
    forall|i: int| 1 <= i < lines.len() ==> !is_continuation(#[trigger] lines[i])
}

/// Folding lines of which none is empty leaves no empty line and no
/// continuation line.
pub proof fn lemma_fold_lines_shape(lines: Seq<Seq<char>>)
    requires
        no_empty_line(lines),
    ensures
        no_empty_line(fold_lines(lines)),
        no_continuation(fold_lines(lines)),
        fold_lines(lines).len() <= lines.len(),
        lines.len() > 0 ==> fold_lines(lines).len() > 0,
    decreases lines.len(),
{
    if lines.len() > 0 {
        let shorter = lines.drop_last();
        lemma_fold_lines_shape(shorter);
        let before = fold_lines(shorter);
        let line = lines.last();
        let folded = fold_lines(lines);
        if before.len() > 0 && is_continuation(line) {
            let joined = before.last() + seq![' '] + trim_start(line);
            assert(joined[0] == before.last()[0]);
            assert forall|i: int| 0 <= i < folded.len() implies (#[trigger] folded[i]).len()
                > 0 by {
                if i < folded.len() - 1 {
                    assert(folded[i] == before[i]);
                }
            }
            assert forall|i: int| 1 <= i < folded.len() implies !is_continuation(
                #[trigger] folded[i],
            ) by {
                if i < folded.len() - 1 {
                    assert(folded[i] == before[i]);
                }
            }
        } else {
            assert forall|i: int| 0 <= i < folded.len() implies (#[trigger] folded[i]).len()
                > 0 by {
                if i < folded.len() - 1 {
                    assert(folded[i] == before[i]);
                } else {
                    assert(folded[i] == lines[lines.len() - 1]);
                }
            }
            assert forall|i: int| 1 <= i < folded.len() implies !is_continuation(
                #[trigger] folded[i],
            ) by {
                if i < folded.len() - 1 {
                    assert(folded[i] == before[i]);
                }
            }
        }
    }
}

/// Lines without a continuation line are folded already.
pub proof fn lemma_fold_lines_fixed(lines: Seq<Seq<char>>)
    requires
        no_continuation(lines),
    ensures
        fold_lines(lines) == lines,
    decreases lines.len(),
{
    if lines.len() > 0 {
        let shorter = lines.drop_last();
        assert forall|i: int| 1 <= i < shorter.len() implies !is_continuation(
            #[trigger] shorter[i],
        ) by {
            assert(shorter[i] == lines[i]);
        }
        lemma_fold_lines_fixed(shorter);
        assert(shorter.push(lines.last()) =~= lines);
    }
}

/// Folding is idempotent: lines that were folded stay as they are when they
/// are folded again, provided that none of the lines folded first was empty.
pub proof fn lemma_fold_lines_idempotent(lines: Seq<Seq<char>>)
    requires
        no_empty_line(lines),
    ensures
        fold_lines(fold_lines(lines)) == fold_lines(lines),
{
    lemma_fold_lines_shape(lines);
    lemma_fold_lines_fixed(fold_lines(lines));
}

/// Some lines of text that stand together, none of them empty.
#[derive(Debug, PartialEq)]
pub struct Paragraph {
    pub lines: Vec<String>,
}

impl View for Paragraph {
    type V = Seq<Seq<char>>;

    open spec fn view(&self) -> Seq<Seq<char>> {
        string_views(self.lines@)
    }
}

impl Paragraph {
    /// The invariant of a paragraph: it holds no empty line.
    pub open spec fn wf(&self) -> bool {
        no_empty_line(self@)
    }

    /// A paragraph without lines.
    pub fn new() -> (p: Self)
        ensures
            p@ == Seq::<Seq<char>>::empty(),
            p.wf(),
    {
        Self { lines: Vec::new() }
    }

    /// A copy of `other`.
    pub fn from(other: &Paragraph) -> (p: Self)
        ensures
            p@ == other@,
    {
        let mut lines: Vec<String> = Vec::new();
        let mut i: usize = 0;
        while i < other.lines.len()
            invariant
                i <= other.lines.len(),
                lines@.len() == i,
                string_views(lines@) == other@.take(i as int),
            decreases other.lines.len() - i,
        {
            let ghost copied = lines@;
            lines.push(other.lines[i].clone());
            assert forall|j: int| 0 <= j < i + 1 implies string_views(lines@)[j] == other@[j] by {
                if j < i {
                    assert(string_views(copied)[j] == other@.take(i as int)[j]);
                }
            }
            assert(string_views(lines@) =~= other@.take(i as int + 1));
            i += 1;
        }
        Self { lines }
    }

    /// Adds `line` at the end, unless it is empty: an empty line is refused
    /// and the paragraph stays as it is.
    pub fn add_line(&mut self, line: &str) -> (r: Result<(), ()>)
        ensures
            line@.len() == 0 ==> r is Err && *final(self) == *old(self),
            line@.len() > 0 ==> r is Ok && final(self)@ == old(self)@.push(line@),
            old(self).wf() ==> final(self).wf(),
    {
        if line.is_empty() {
            return Err(());
        }
        self.lines.push(String::from_str(line));
        assert(self@ =~= old(self)@.push(line@));
        Ok(())
    }

    /// The number of lines.
    pub fn len(&self) -> (n: usize)
        ensures
            n == self@.len(),
    {
        self.lines.len()
    }

    /// The line at position `num`, if there is one.
    pub fn get_line(&self, num: usize) -> (line: Option<&String>)
        ensures
            num < self@.len() ==> line == Some(&self.lines@[num as int]),
            num >= self@.len() ==> line is None,
    {
        if num < self.lines.len() {
            Some(&self.lines[num])
        } else {
            None
        }
    }

    /// All lines, in order.
    pub fn get_lines(&self) -> (lines: &Vec<String>)
        ensures
            *lines == self.lines,
    {
        &self.lines
    }

    /// A paragraph with the lines of this one folded: see [`fold_lines`].
    pub fn folded(&self) -> (p: Paragraph)
        ensures
            p@ == fold_lines(self@),
            self.wf() ==> p.wf(),
    {
        let mut folded_lines: Vec<String> = Vec::new();
        if self.lines.len() > 0 {
            let mut current = self.lines[0].clone();
            assert(self@.take(1).drop_last() =~= Seq::<Seq<char>>::empty());
            assert(fold_lines(Seq::<Seq<char>>::empty()) =~= Seq::<Seq<char>>::empty());
            assert(string_views(folded_lines@).push(current@) =~= fold_lines(self@.take(1)));
            let mut i: usize = 1;
            while i < self.lines.len()
                invariant
                    1 <= i <= self.lines.len(),
                    string_views(folded_lines@).push(current@) == fold_lines(self@.take(i as int)),
                decreases self.lines.len() - i,
            {
                let ghost before = fold_lines(self@.take(i as int));
                assert(self@.take(i as int + 1).drop_last() =~= self@.take(i as int));
                assert(self@.take(i as int + 1).last() == self@[i as int]);
                let chars = to_chars(self.lines[i].as_str());
                if chars.len() > 0 && (chars[0] == ' ' || chars[0] == '\t') {
                    let start = skip_whitespace(&chars, 0, chars.len());
                    assert(chars@.subrange(0, chars.len() as int) =~= chars@);
                    push_char(&mut current, ' ');
                    append_chars(&mut current, &chars, start, chars.len());
                    assert(current@ =~= before.last() + seq![' '] + trim_start(self@[i as int]));
                    assert(string_views(folded_lines@).push(current@) =~= before.drop_last().push(
                        current@,
                    ));
                } else {
                    folded_lines.push(current);
                    current = self.lines[i].clone();
                    assert(string_views(folded_lines@).push(current@) =~= before.push(
                        self@[i as int],
                    ));
                }
                i += 1;
            }
            assert(self@.take(i as int) =~= self@);
            folded_lines.push(current);
        }
        let p = Paragraph { lines: folded_lines };
        assert(p@ =~= fold_lines(self@));
        proof {
            if self.wf() {
                lemma_fold_lines_shape(self@);
            }
        }
        p
    }
}

/// Folding a paragraph twice gives what folding it once gives.
pub proof fn lemma_folded_idempotent(p: Paragraph)
    requires
        p.wf(),
    ensures
        fold_lines(fold_lines(p@)) == fold_lines(p@),
{
    lemma_fold_lines_idempotent(p@);
}

} // verus!
