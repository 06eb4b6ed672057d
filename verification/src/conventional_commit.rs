//! Conventional commits: the header line with type, scopes and description,
//! the body, and the footer with its trailers.

use crate::base::{fold_lines, result_view, Paragraph, ParseError, ParseErrorView};
use crate::commit_message::{paragraph_views, segment, CommitMessage};
use crate::pattern::{captures, regex_captures};
use crate::text::{ascii_lowercase, lowercase_is, split, split_str, string_views, to_chars};
use std::collections::VecDeque;
use vstd::prelude::*;

verus! {

/// The regular expression of a header line: a type of one character or
/// more; then, optionally, a scope list in round brackets; then,
/// optionally, an exclamation mark; then a colon, optionally one space, and
/// the description, which is the rest of the line and not empty.
pub const SUBJECT_PATTERN: &'static str =
    r"^(?<type>.+?)(?:\((?<scope>.+)\))?(?<breaking>!)?: ?(?<description>.+)$";

/// The regular expression of a trailer line: a key, which is either
/// `BREAKING CHANGE`, written with a space, or made of letters and hyphens;
/// then a colon and a space; then the value, which is the rest of the line
/// and not empty. Only the key `BREAKING CHANGE` is captured in a group of
/// its own, so only this key announces a breaking change.
pub const FOOTER_PATTERN: &'static str = r"^(?:(?<breaking>BREAKING CHANGE)|[-A-Za-z]+): .+$";

/// The number of capture groups of [`SUBJECT_PATTERN`], the whole match
/// counted.
pub const SUBJECT_GROUPS: usize = 5;

/// The capture group of [`SUBJECT_PATTERN`] that holds the type.
pub const TYPE_GROUP: usize = 1;

/// The capture group of [`SUBJECT_PATTERN`] that holds the scope list.
pub const SCOPE_GROUP: usize = 2;

/// The capture group of [`SUBJECT_PATTERN`] that holds the exclamation mark.
pub const BREAKING_GROUP: usize = 3;

/// The capture group of [`SUBJECT_PATTERN`] that holds the description.
pub const DESCRIPTION_GROUP: usize = 4;

/// The capture group of [`FOOTER_PATTERN`] that holds the key of a trailer
/// that announces a breaking change.
pub const TRAILER_BREAKING_GROUP: usize = 1;

/// The reason given for a message without a paragraph.
pub const NO_LINES_REASON: &'static str = "Commit message has to have at least one line";

/// The reason given for a header paragraph of no line or of several.
pub const HEADER_LINES_REASON: &'static str = "Commit header should have exactly one line";

/// The reason given for a header line that the header pattern does not match.
pub const HEADER_FORMAT_REASON: &'static str = "Commit header has invalid format";

/// The reason given for a footer line that the trailer pattern does not match.
pub const TRAILER_FORMAT_REASON: &'static str = "Line does not match git trailer format";

/// The kind of change that a commit makes.
#[derive(Debug, PartialEq)]
pub enum CommitType {
    Fix,
    Feat,
    Custom(String),
}

/// A [`CommitType`] with its label as plain text.
pub enum CommitTypeView {
    Fix,
    Feat,
    Custom(Seq<char>),
}

impl View for CommitType {
    type V = CommitTypeView;

    open spec fn view(&self) -> CommitTypeView {
        match self {
            CommitType::Fix => CommitTypeView::Fix,
            CommitType::Feat => CommitTypeView::Feat,
            CommitType::Custom(label) => CommitTypeView::Custom(label@),
        }
    }
}

/// What the header line of a commit says.
#[derive(Debug, PartialEq)]
pub struct Header {
    pub commit_type: CommitType,
    pub scopes: Option<Vec<String>>,
    pub description: String,
    pub has_breaking_change_marker: bool,
}

/// A [`Header`] as plain values.
pub struct HeaderView {
    pub commit_type: CommitTypeView,
    pub scopes: Option<Seq<Seq<char>>>,
    pub description: Seq<char>,
    pub has_breaking_change_marker: bool,
}

/// The views of the scopes in `scopes`, if there are scopes.
pub open spec fn scopes_view(scopes: Option<Vec<String>>) -> Option<Seq<Seq<char>>> {
    match scopes {
        Some(labels) => Some(string_views(labels@)),
        None => None,
    }
}

impl View for Header {
    type V = HeaderView;

    open spec fn view(&self) -> HeaderView {
        HeaderView {
            commit_type: self.commit_type@,
            scopes: scopes_view(self.scopes),
            description: self.description@,
            has_breaking_change_marker: self.has_breaking_change_marker,
        }
    }
}

/// The paragraphs between the header and the footer.
#[derive(Debug, PartialEq)]
pub struct Body {
    pub paragraphs: Vec<Paragraph>,
}

impl View for Body {
    type V = Seq<Seq<Seq<char>>>;

    open spec fn view(&self) -> Seq<Seq<Seq<char>>> {
        paragraph_views(self.paragraphs@)
    }
}

/// One trailer of the footer: its line, and whether it announces a breaking
/// change.
#[derive(Debug, PartialEq)]
pub struct FooterElement {
    pub content: String,
    pub has_breaking_change: bool,
}

/// A [`FooterElement`] as plain values.
pub struct FooterElementView {
    pub content: Seq<char>,
    pub has_breaking_change: bool,
}

impl View for FooterElement {
    type V = FooterElementView;

    open spec fn view(&self) -> FooterElementView {
        FooterElementView {
            content: self.content@,
            has_breaking_change: self.has_breaking_change,
        }
    }
}

/// The trailers at the end of a commit message.
#[derive(Debug, PartialEq)]
pub struct Footer {
    pub elements: Vec<FooterElement>,
    pub has_breaking_change_marker: bool,
}

/// A [`Footer`] as plain values.
pub struct FooterView {
    pub elements: Seq<FooterElementView>,
    pub has_breaking_change_marker: bool,
}

/// The views of the trailers in `elements`.
pub open spec fn element_views(elements: Seq<FooterElement>) -> Seq<FooterElementView> {
    Seq::new(elements.len(), |i: int| elements[i]@)
}

impl View for Footer {
    type V = FooterView;

    open spec fn view(&self) -> FooterView {
        FooterView {
            elements: element_views(self.elements@),
            has_breaking_change_marker: self.has_breaking_change_marker,
        }
    }
}

/// A commit message read as a conventional commit.
#[derive(Debug, PartialEq)]
pub struct ConventionalCommit {
    pub commit_type: CommitType,
    pub scopes: Option<Vec<String>>,
    pub description: String,
    pub body: Option<Body>,
    pub footer: Option<Footer>,
    pub is_breaking_change: bool,
}

/// A [`ConventionalCommit`] as plain values.
pub struct ConventionalCommitView {
    pub commit_type: CommitTypeView,
    pub scopes: Option<Seq<Seq<char>>>,
    pub description: Seq<char>,
    pub body: Option<Seq<Seq<Seq<char>>>>,
    pub footer: Option<FooterView>,
    pub is_breaking_change: bool,
}

/// The view of the body `body`, if there is a body.
pub open spec fn body_view(body: Option<Body>) -> Option<Seq<Seq<Seq<char>>>> {
    match body {
        Some(body) => Some(body@),
        None => None,
    }
}

/// The view of the footer `footer`, if there is a footer.
pub open spec fn footer_view(footer: Option<Footer>) -> Option<FooterView> {
    match footer {
        Some(footer) => Some(footer@),
        None => None,
    }
}

impl View for ConventionalCommit {
    type V = ConventionalCommitView;

    open spec fn view(&self) -> ConventionalCommitView {
        ConventionalCommitView {
            commit_type: self.commit_type@,
            scopes: scopes_view(self.scopes),
            description: self.description@,
            body: body_view(self.body),
            footer: footer_view(self.footer),
            is_breaking_change: self.is_breaking_change,
        }
    }
}

/// The commit type that the token `token` of a header names: `feat` and
/// `fix` in any mix of capital and small letters name the two known types;
/// any other token is a custom type and kept as it was written.
pub open spec fn commit_type_of(token: Seq<char>) -> CommitTypeView {
    if ascii_lowercase(token) == "feat"@ {
        CommitTypeView::Feat
    } else if ascii_lowercase(token) == "fix"@ {
        CommitTypeView::Fix
    } else {
        CommitTypeView::Custom(token)
    }
}

/// Whether the header pattern matched and captured a type and a description.
pub open spec fn is_header_match(found: Option<Seq<Option<Seq<char>>>>) -> bool {
    &&& found matches Some(groups)
    &&& groups.len() == SUBJECT_GROUPS
    &&& groups[TYPE_GROUP as int] is Some
    &&& groups[DESCRIPTION_GROUP as int] is Some
}

/// The header that `line` is, given what the header pattern captured in it:
/// the type from its group, the scopes as the pieces of the scope list
/// between commas (no scopes where no list was captured), the description
/// as captured, and the marker set if the exclamation mark was captured.
/// Where the pattern did not match, `line` has not the format of a header.
pub open spec fn header_of_captures(
    line: Seq<char>,
    found: Option<Seq<Option<Seq<char>>>>,
) -> Result<HeaderView, ParseErrorView> {
    if is_header_match(found) {
        let groups = found->0;
        Ok(
            HeaderView {
                commit_type: commit_type_of(groups[TYPE_GROUP as int]->0),
                scopes: match groups[SCOPE_GROUP as int] {
                    Some(list) => Some(split(list, ',')),
                    None => None,
                },
                description: groups[DESCRIPTION_GROUP as int]->0,
                has_breaking_change_marker: groups[BREAKING_GROUP as int] is Some,
            },
        )
    } else {
        Err(ParseErrorView { line, reason: HEADER_FORMAT_REASON@ })
    }
}

/// The header that the line `line` is.
pub open spec fn header_of_line(line: Seq<char>) -> Result<HeaderView, ParseErrorView> {
    header_of_captures(line, regex_captures(SUBJECT_PATTERN@, line))
}

/// The header that the paragraph `paragraph` is: it must be a single line.
pub open spec fn header_of(paragraph: Seq<Seq<char>>) -> Result<HeaderView, ParseErrorView> {
    if paragraph.len() != 1 {
        Err(ParseErrorView { line: Seq::empty(), reason: HEADER_LINES_REASON@ })
    } else {
        header_of_line(paragraph[0])
    }
}

/// The trailer that `line` is, given what the trailer pattern captured in
/// it: the line itself, which announces a breaking change if the group for
/// that key was captured. Where the pattern did not match, `line` is no
/// trailer.
pub open spec fn trailer_of_captures(
    line: Seq<char>,
    found: Option<Seq<Option<Seq<char>>>>,
) -> Result<FooterElementView, ParseErrorView> {
    match found {
        Some(groups) => Ok(
            FooterElementView {
                content: line,
                has_breaking_change: groups.len() > TRAILER_BREAKING_GROUP
                    && groups[TRAILER_BREAKING_GROUP as int] is Some,
            },
        ),
        None => Err(ParseErrorView { line, reason: TRAILER_FORMAT_REASON@ }),
    }
}

/// The trailer that the line `line` is.
pub open spec fn trailer_of(line: Seq<char>) -> Result<FooterElementView, ParseErrorView> {
    trailer_of_captures(line, regex_captures(FOOTER_PATTERN@, line))
}

/// The footer made of `lines`, each of them a trailer; or the error of the
/// first line that is none.
pub open spec fn trailers_of(lines: Seq<Seq<char>>) -> Result<FooterView, ParseErrorView>
    decreases lines.len(),
{
    if lines.len() == 0 {
        Ok(FooterView { elements: Seq::empty(), has_breaking_change_marker: false })
    } else {
        match trailers_of(lines.drop_last()) {
            Err(error) => Err(error),
            Ok(footer) => match trailer_of(lines.last()) {
                Err(error) => Err(error),
                Ok(element) => Ok(
                    FooterView {
                        elements: footer.elements.push(element),
                        has_breaking_change_marker: footer.has_breaking_change_marker
                            || element.has_breaking_change,
                    },
                ),
            },
        }
    }
}

/// The footer that the paragraph `paragraph` is: its lines are folded, and
/// each folded line must be a trailer.
pub open spec fn footer_of(paragraph: Seq<Seq<char>>) -> Result<FooterView, ParseErrorView> {
    trailers_of(fold_lines(paragraph))
}

/// The commit with the header `header`, the paragraphs `body` between
/// header and footer, and the footer `footer`. There is a body only if it
/// has a paragraph. The commit breaks compatibility if the header or the
/// footer says so.
pub open spec fn assemble_commit(
    header: HeaderView,
    body: Seq<Seq<Seq<char>>>,
    footer: Option<FooterView>,
) -> ConventionalCommitView {
    ConventionalCommitView {
        commit_type: header.commit_type,
        scopes: header.scopes,
        description: header.description,
        body: if body.len() > 0 {
            Some(body)
        } else {
            None
        },
        footer,
        is_breaking_change: header.has_breaking_change_marker || (footer matches Some(f)
            && f.has_breaking_change_marker),
    }
}

/// Whether the message `message`, whose first paragraph is the header, ends
/// in a footer: a paragraph after the header, the last one, in which every
/// line is a trailer.
pub open spec fn has_footer(message: Seq<Seq<Seq<char>>>) -> bool {
    message.len() > 1 && footer_of(message.last()) is Ok
}

/// The conventional commit that the paragraphs `message` are. The first
/// paragraph is the header. The last of the others is the footer if all its
/// lines are trailers. What lies between is the body.
pub open spec fn commit_of(message: Seq<Seq<Seq<char>>>) -> Result<
    ConventionalCommitView,
    ParseErrorView,
> {
    if message.len() == 0 {
        Err(ParseErrorView { line: Seq::empty(), reason: NO_LINES_REASON@ })
    } else {
        match header_of(message[0]) {
            Err(error) => Err(error),
            Ok(header) => if has_footer(message) {
                Ok(
                    assemble_commit(
                        header,
                        message.subrange(1, message.len() - 1),
                        Some(footer_of(message.last())->Ok_0),
                    ),
                )
            } else {
                Ok(assemble_commit(header, message.subrange(1, message.len() as int), None))
            },
        }
    }
}

/// Once a line is no trailer, the lines up to it are no footer, however
/// many lines follow.
pub proof fn lemma_trailers_error_stays(lines: Seq<Seq<char>>, failed: int)
    requires
        0 <= failed <= lines.len(),
        trailers_of(lines.take(failed)) is Err,
    ensures
        trailers_of(lines) == trailers_of(lines.take(failed)),
    decreases lines.len() - failed,
{
    if failed == lines.len() {
        assert(lines.take(failed) =~= lines);
    } else {
        assert(lines.take(failed + 1).drop_last() =~= lines.take(failed));
        lemma_trailers_error_stays(lines, failed + 1);
    }
}

/// Lines are a footer if and only if each of them is a trailer. The footer
/// then holds the trailers of the lines in their order, and its marker is
/// set if and only if one of them announces a breaking change.
pub proof fn lemma_trailers_of_all(lines: Seq<Seq<char>>)
    ensures
        trailers_of(lines) is Ok <==> (forall|i: int|
            0 <= i < lines.len() ==> trailer_of(#[trigger] lines[i]) is Ok),
        trailers_of(lines) matches Ok(footer) ==> {
            &&& footer.elements.len() == lines.len()
            &&& forall|i: int|
                0 <= i < lines.len() ==> Ok::<FooterElementView, ParseErrorView>(
                    #[trigger] footer.elements[i],
                ) == trailer_of(lines[i])
            &&& footer.has_breaking_change_marker <==> (exists|i: int|
                0 <= i < lines.len() && (#[trigger] footer.elements[i]).has_breaking_change)
        },
    decreases lines.len(),
{
    if lines.len() > 0 {
        let shorter = lines.drop_last();
        lemma_trailers_of_all(shorter);
        assert forall|i: int| 0 <= i < shorter.len() implies shorter[i] == lines[i] by {}
        if trailers_of(lines) is Ok {
            let footer = trailers_of(lines)->Ok_0;
            let before = trailers_of(shorter)->Ok_0;
            assert forall|i: int| 0 <= i < lines.len() implies trailer_of(
                #[trigger] lines[i],
            ) is Ok by {
                if i < shorter.len() {
                    assert(trailer_of(shorter[i]) is Ok);
                }
            }
            assert forall|i: int| 0 <= i < lines.len() implies Ok::<
                FooterElementView,
                ParseErrorView,
            >(#[trigger] footer.elements[i]) == trailer_of(lines[i]) by {
                if i < shorter.len() {
                    assert(footer.elements[i] == before.elements[i]);
                }
            }
            if footer.has_breaking_change_marker {
                if before.has_breaking_change_marker {
                    let i = choose|i: int|
                        0 <= i < shorter.len() && (#[trigger] before.elements[i]).has_breaking_change;
                    assert(footer.elements[i].has_breaking_change);
                } else {
                    assert(footer.elements[lines.len() - 1].has_breaking_change);
                }
            }
            if exists|i: int|
                0 <= i < lines.len() && (#[trigger] footer.elements[i]).has_breaking_change {
                let i = choose|i: int|
                    0 <= i < lines.len() && (#[trigger] footer.elements[i]).has_breaking_change;
                if i < shorter.len() {
                    assert(before.elements[i].has_breaking_change);
                }
            }
        } else if forall|i: int| 0 <= i < lines.len() ==> trailer_of(#[trigger] lines[i]) is Ok {
            assert forall|i: int| 0 <= i < shorter.len() implies trailer_of(
                #[trigger] shorter[i],
            ) is Ok by {
                assert(trailer_of(lines[i]) is Ok);
            }
            assert(trailer_of(lines[lines.len() - 1]) is Ok);
        }
    }
}

/// Where a line is no trailer and all lines before it are trailers, the
/// lines are no footer, and the error is that of this line.
pub proof fn lemma_trailers_first_error(lines: Seq<Seq<char>>, first: int)
    requires
        0 <= first < lines.len(),
        forall|i: int| 0 <= i < first ==> trailer_of(#[trigger] lines[i]) is Ok,
        trailer_of(lines[first]) is Err,
    ensures
        trailers_of(lines) == Err::<FooterView, ParseErrorView>(trailer_of(lines[first])->Err_0),
{
    let before = lines.take(first);
    assert forall|i: int| 0 <= i < before.len() implies trailer_of(#[trigger] before[i]) is Ok by {
        assert(before[i] == lines[i]);
    }
    lemma_trailers_of_all(before);
    assert(lines.take(first + 1).drop_last() =~= before);
    assert(lines.take(first + 1).last() == lines[first]);
    lemma_trailers_error_stays(lines, first + 1);
}

/// Capital and small letters make no difference to the type that a token
/// names: tokens that are the same but for the case of their ASCII letters
/// name the same known type, or both name a custom type.
pub proof fn lemma_commit_type_ignores_case(a: Seq<char>, b: Seq<char>)
    requires
        ascii_lowercase(a) == ascii_lowercase(b),
    ensures
        commit_type_of(a) is Feat <==> commit_type_of(b) is Feat,
        commit_type_of(a) is Fix <==> commit_type_of(b) is Fix,
        commit_type_of(a) is Custom <==> commit_type_of(b) is Custom,
        commit_type_of(a) matches CommitTypeView::Custom(label) ==> label == a,
{
}

/// The paragraphs of the body `body`, none where there is no body.
pub open spec fn body_paragraphs(body: Option<Seq<Seq<Seq<char>>>>) -> Seq<Seq<Seq<char>>> {
    match body {
        Some(paragraphs) => paragraphs,
        None => Seq::empty(),
    }
}

/// A commit accounts for every paragraph of its message: after the header
/// come the paragraphs of the body, in their order, and after these, if the
/// commit has a footer, the one paragraph that the footer was read from,
/// which is the last. A body is never without paragraphs. The commit breaks
/// compatibility if and only if its header or its footer carries the mark.
pub proof fn lemma_commit_keeps_paragraphs(message: Seq<Seq<Seq<char>>>)
    requires
        commit_of(message) is Ok,
    ensures
        message.len() >= 1,
        header_of(message[0]) is Ok,
        ({
            let commit = commit_of(message)->Ok_0;
            let header = header_of(message[0])->Ok_0;
            let body = body_paragraphs(commit.body);
            &&& commit.body matches Some(paragraphs) ==> paragraphs.len() > 0
            &&& commit.footer matches Some(footer) ==> {
                &&& body.push(message.last()) == message.drop_first()
                &&& footer_of(message.last()) == Ok::<FooterView, ParseErrorView>(footer)
            }
            &&& commit.footer is None ==> body == message.drop_first()
            &&& commit.is_breaking_change <==> header.has_breaking_change_marker || (
            commit.footer matches Some(footer) && footer.has_breaking_change_marker)
        }),
{
    let commit = commit_of(message)->Ok_0;
    let body = body_paragraphs(commit.body);
    if has_footer(message) {
        assert(body =~= message.subrange(1, message.len() - 1));
        assert(body.push(message.last()) =~= message.drop_first());
    } else {
        assert(body =~= message.drop_first());
    }
}

/// The commit type that the token `commit_type` names.
pub fn parse_commit_type(commit_type: &str) -> (parsed: CommitType)
    ensures
        parsed@ == commit_type_of(commit_type@),
{
    let chars = to_chars(commit_type);
    if lowercase_is(&chars, "feat") {
        CommitType::Feat
    } else if lowercase_is(&chars, "fix") {
        CommitType::Fix
    } else {
        CommitType::Custom(String::from_str(commit_type))
    }
}

/// The scopes named in the scope list `scopes`: its pieces between commas,
/// as they are written.
pub fn parse_scopes(scopes: &str) -> (labels: Vec<String>)
    ensures
        string_views(labels@) == split(scopes@, ','),
{
    split_str(scopes, ',')
}

impl Header {
    /// The header that `line` is, where `found` is what the header pattern
    /// captured in it.
    pub fn from_captures(line: &str, found: &Option<Vec<Option<String>>>) -> (header: Result<
        Header,
        ParseError,
    >)
        ensures
            result_view(header) == header_of_captures(line@, found.deep_view()),
    {
        let groups = match found {
            Some(groups) => groups,
            None => {
                return Err(ParseError::new(line, HEADER_FORMAT_REASON));
            },
        };
        assert(found.deep_view() == Some(groups.deep_view()));
        assert(groups.deep_view().len() == groups.len());
        if groups.len() != SUBJECT_GROUPS {
            return Err(ParseError::new(line, HEADER_FORMAT_REASON));
        }
        assert(groups.deep_view()[TYPE_GROUP as int] == groups[TYPE_GROUP as int].deep_view());
        assert(groups.deep_view()[SCOPE_GROUP as int] == groups[SCOPE_GROUP as int].deep_view());
        assert(groups.deep_view()[BREAKING_GROUP as int] == groups[BREAKING_GROUP as int].deep_view());
        assert(groups.deep_view()[DESCRIPTION_GROUP as int]
            == groups[DESCRIPTION_GROUP as int].deep_view());
        let commit_type = match &groups[TYPE_GROUP] {
            Some(token) => parse_commit_type(token.as_str()),
            None => {
                return Err(ParseError::new(line, HEADER_FORMAT_REASON));
            },
        };
        let description = match &groups[DESCRIPTION_GROUP] {
            Some(text) => text.clone(),
            None => {
                return Err(ParseError::new(line, HEADER_FORMAT_REASON));
            },
        };
        let scopes = match &groups[SCOPE_GROUP] {
            Some(list) => Some(parse_scopes(list.as_str())),
            None => None,
        };
        let has_breaking_change_marker = groups[BREAKING_GROUP].is_some();
        Ok(Header { commit_type, scopes, description, has_breaking_change_marker })
    }

    /// The header that the line `line` is.
    pub fn from_line(line: &str) -> (header: Result<Header, ParseError>)
        ensures
            result_view(header) == header_of_line(line@),
    {
        let found = captures(SUBJECT_PATTERN, line);
        Header::from_captures(line, &found)
    }

    /// The header that `paragraph` is. A paragraph that is not a single line
    /// is no header, and a line that has not the format of a header is none.
    pub fn from(paragraph: &Paragraph) -> (header: Result<Header, ParseError>)
        ensures
            result_view(header) == header_of(paragraph@),
    {
        if paragraph.len() != 1 {
            proof {
                reveal_strlit("");
                assert(""@ =~= Seq::<char>::empty());
            }
            return Err(ParseError::new("", HEADER_LINES_REASON));
        }
        Header::from_line(paragraph.lines[0].as_str())
    }
}

impl Body {
    /// A body of the paragraphs `paragraphs`.
    pub fn from(paragraphs: Vec<Paragraph>) -> (body: Self)
        ensures
            body.paragraphs == paragraphs,
    {
        Self { paragraphs }
    }
}

impl FooterElement {
    /// The trailer that `line` is, where `found` is what the trailer pattern
    /// captured in it.
    pub fn from_captures(line: &str, found: &Option<Vec<Option<String>>>) -> (element: Result<
        Self,
        ParseError,
    >)
        ensures
            result_view(element) == trailer_of_captures(line@, found.deep_view()),
    {
        match found {
            None => Err(ParseError::new(line, TRAILER_FORMAT_REASON)),
            Some(groups) => {
                assert(found.deep_view() == Some(groups.deep_view()));
                assert(groups.deep_view().len() == groups.len());
                let has_breaking_change = if groups.len() > TRAILER_BREAKING_GROUP {
                    assert(groups.deep_view()[TRAILER_BREAKING_GROUP as int]
                        == groups[TRAILER_BREAKING_GROUP as int].deep_view());
                    groups[TRAILER_BREAKING_GROUP].is_some()
                } else {
                    false
                };
                Ok(Self { content: String::from_str(line), has_breaking_change })
            },
        }
    }

    /// The trailer that `line` is, or an error if it is none.
    pub fn from(line: &str) -> (element: Result<Self, ParseError>)
        ensures
            result_view(element) == trailer_of(line@),
    {
        let found = captures(FOOTER_PATTERN, line);
        FooterElement::from_captures(line, &found)
    }
}

impl Footer {
    /// The footer that `paragraph` is: one trailer for each of its lines
    /// after folding, or the error of the first folded line that is no
    /// trailer.
    pub fn from(paragraph: &Paragraph) -> (footer: Result<Self, ParseError>)
        ensures
            result_view(footer) == footer_of(paragraph@),
    {
        let folded = paragraph.folded();
        let mut elements: Vec<FooterElement> = Vec::new();
        let mut has_breaking_change = false;
        let mut i: usize = 0;
        assert(folded@.take(0) =~= Seq::<Seq<char>>::empty());
        assert(element_views(elements@) =~= Seq::<FooterElementView>::empty());
        while i < folded.lines.len()
            invariant
                i <= folded.lines.len(),
                folded@ == fold_lines(paragraph@),
                trailers_of(folded@.take(i as int)) == Ok::<FooterView, ParseErrorView>(
                    FooterView {
                        elements: element_views(elements@),
                        has_breaking_change_marker: has_breaking_change,
                    },
                ),
            decreases folded.lines.len() - i,
        {
            assert(folded@.take(i as int + 1).drop_last() =~= folded@.take(i as int));
            assert(folded@.take(i as int + 1).last() == folded@[i as int]);
            match FooterElement::from(folded.lines[i].as_str()) {
                Err(error) => {
                    proof {
                        assert(trailer_of(folded@[i as int]) == Err::<
                            FooterElementView,
                            ParseErrorView,
                        >(error@));
                        assert(trailers_of(folded@.take(i as int + 1)) == Err::<
                            FooterView,
                            ParseErrorView,
                        >(error@));
                        lemma_trailers_error_stays(folded@, i as int + 1);
                    }
                    return Err(error);
                },
                Ok(element) => {
                    if element.has_breaking_change {
                        has_breaking_change = true;
                    }
                    let ghost before = element_views(elements@);
                    elements.push(element);
                    assert(element_views(elements@) =~= before.push(element@));
                },
            }
            i += 1;
        }
        assert(folded@.take(i as int) =~= folded@);
        Ok(Self { elements, has_breaking_change_marker: has_breaking_change })
    }
}

impl ConventionalCommit {
    /// The commit with the header `header`, the paragraphs `paragraphs` as
    /// its body and the footer `footer`.
    pub fn assemble(header: Header, paragraphs: VecDeque<Paragraph>, footer: Option<Footer>) -> (commit:
        ConventionalCommit)
        ensures
            commit@ == assemble_commit(header@, paragraph_views(paragraphs@), footer_view(footer)),
    {
        let mut paragraphs = paragraphs;
        let ghost all = paragraph_views(paragraphs@);
        let mut body: Option<Body> = None;
        if paragraphs.len() > 0 {
            let mut collected: Vec<Paragraph> = Vec::new();
            while paragraphs.len() > 0
                invariant
                    paragraph_views(collected@) + paragraph_views(paragraphs@) == all,
                decreases paragraphs.len(),
            {
                let ghost done = paragraph_views(collected@);
                let ghost waiting = paragraph_views(paragraphs@);
                match paragraphs.pop_front() {
                    Some(paragraph) => {
                        collected.push(paragraph);
                        assert(paragraph_views(collected@) =~= done.push(waiting[0]));
                        assert(paragraph_views(paragraphs@) =~= waiting.drop_first());
                        assert(done.push(waiting[0]) + waiting.drop_first() =~= done + waiting);
                    },
                    None => {},
                }
            }
            assert(paragraph_views(collected@) =~= all);
            body = Some(Body::from(collected));
        }
        let is_breaking_change = header.has_breaking_change_marker || match &footer {
            Some(footer) => footer.has_breaking_change_marker,
            None => false,
        };
        ConventionalCommit {
            commit_type: header.commit_type,
            scopes: header.scopes,
            description: header.description,
            body,
            footer,
            is_breaking_change,
        }
    }

    /// The conventional commit that `message` is: see [`commit_of`].
    pub fn from(message: CommitMessage) -> (commit: Result<Self, ParseError>)
        ensures
            result_view(commit) == commit_of(message@),
    {
        let mut paragraphs = message.get_paragraphs();
        let first_paragraph = match paragraphs.pop_front() {
            Some(paragraph) => paragraph,
            None => {
                proof {
                    reveal_strlit("");
                    assert(""@ =~= Seq::<char>::empty());
                }
                return Err(ParseError::new("", NO_LINES_REASON));
            },
        };
        assert(first_paragraph@ == message@[0]);
        assert(paragraph_views(paragraphs@) =~= message@.subrange(1, message@.len() as int));
        let header = match Header::from(&first_paragraph) {
            Ok(header) => header,
            Err(error) => {
                return Err(error);
            },
        };
        let mut footer: Option<Footer> = None;
        let ghost rest = paragraph_views(paragraphs@);
        match paragraphs.pop_back() {
            Some(last_paragraph) => {
                assert(last_paragraph@ == message@.last());
                match Footer::from(&last_paragraph) {
                    Ok(found) => {
                        footer = Some(found);
                        assert(paragraph_views(paragraphs@) =~= message@.subrange(
                            1,
                            message@.len() - 1,
                        ));
                    },
                    Err(_) => {
                        paragraphs.push_back(last_paragraph);
                        assert(paragraph_views(paragraphs@) =~= rest);
                    },
                }
            },
            None => {},
        }
        Ok(ConventionalCommit::assemble(header, paragraphs, footer))
    }

    /// The conventional commit that the text `message` is: the commit of
    /// its paragraphs.
    pub fn from_str(message: &str) -> (commit: Result<Self, ParseError>)
        ensures
            result_view(commit) == commit_of(segment(message@)),
    {
        let commit = CommitMessage::from(message);
        ConventionalCommit::from(commit)
    }
}

/// The conventional commit that the single line `commit_message` is: a
/// header without body and footer.
pub fn parse(commit_message: &str) -> (commit: Result<ConventionalCommit, ParseError>)
    ensures
        result_view(commit) == match header_of_line(commit_message@) {
            Ok(header) => Ok::<ConventionalCommitView, ParseErrorView>(
                assemble_commit(header, Seq::empty(), None),
            ),
            Err(error) => Err(error),
        },
{
    match Header::from_line(commit_message) {
        Ok(header) => Ok(ConventionalCommit::assemble(header, VecDeque::new(), None)),
        Err(error) => Err(error),
    }
}

} // verus!
