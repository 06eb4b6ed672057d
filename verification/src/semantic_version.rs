//! Semantic versions: how a commit moves a version on, how versions are
//! read and written as text, and how they compare.

use crate::conventional_commit::{CommitType, CommitTypeView, ConventionalCommit};
use crate::text::{
    all_digits, append_chars, decimal_digits, decimal_value, find_char, index_of, is_digit,
    is_number, join, lemma_decimal_round_trip, lemma_index_of, lemma_split_joined,
    lemma_split_of_join, lemma_split_whole, parse_number, push_char, push_decimal,
    push_signed_decimal, push_text, signed_decimal_digits, split, split_range, string_views,
    text_is, to_chars,
};
use std::cmp::Ordering;
use vstd::prelude::*;

verus! {

/// The stage of a pre-release.
#[derive(Debug, Clone, Copy, PartialEq, Eq, Structural)]
pub enum PreReleaseType {
    Alpha,
    Beta,
    RC,
}

/// What marks a version as a pre-release: a chain of stages and, if it is
/// counted, a number.
#[derive(Debug)]
pub struct PreRelease {
    pub pre_release_type_chain: Vec<PreReleaseType>,
    pub version: Option<i32>,
}

/// A [`PreRelease`] as plain values.
pub struct PreReleaseView {
    pub chain: Seq<PreReleaseType>,
    pub version: Option<i32>,
}

impl View for PreRelease {
    type V = PreReleaseView;

    open spec fn view(&self) -> PreReleaseView {
        PreReleaseView { chain: self.pre_release_type_chain@, version: self.version }
    }
}

/// A semantic version: three numbers, and optionally a pre-release marker
/// and build metadata.
#[derive(Debug)]
pub struct SemanticVersion {
    pub major: u32,
    pub minor: u32,
    pub patch: u32,
    pub pre_release: Option<PreRelease>,
    pub metadata: Option<String>,
}

/// A [`SemanticVersion`] as plain values.
pub struct SemanticVersionView {
    pub major: u32,
    pub minor: u32,
    pub patch: u32,
    pub pre_release: Option<PreReleaseView>,
    pub metadata: Option<Seq<char>>,
}

/// The view of the pre-release marker `pre_release`, if there is one.
pub open spec fn pre_release_view(pre_release: Option<PreRelease>) -> Option<PreReleaseView> {
    match pre_release {
        Some(marker) => Some(marker@),
        None => None,
    }
}

/// The view of the metadata `metadata`, if there is any.
pub open spec fn metadata_view(metadata: Option<String>) -> Option<Seq<char>> {
    match metadata {
        Some(text) => Some(text@),
        None => None,
    }
}

impl View for SemanticVersion {
    type V = SemanticVersionView;

    open spec fn view(&self) -> SemanticVersionView {
        SemanticVersionView {
            major: self.major,
            minor: self.minor,
            patch: self.patch,
            pre_release: pre_release_view(self.pre_release),
            metadata: metadata_view(self.metadata),
        }
    }
}

/// The stage that `name` names.
pub open spec fn pre_release_type_of(name: Seq<char>) -> Option<PreReleaseType> {
    if name == "alpha"@ {
        Some(PreReleaseType::Alpha)
    } else if name == "beta"@ {
        Some(PreReleaseType::Beta)
    } else if name == "rc"@ {
        Some(PreReleaseType::RC)
    } else {
        None
    }
}

/// The name of the stage `stage`.
pub open spec fn pre_release_type_name(stage: PreReleaseType) -> Seq<char> {
    match stage {
        PreReleaseType::Alpha => "alpha"@,
        PreReleaseType::Beta => "beta"@,
        PreReleaseType::RC => "rc"@,
    }
}

/// The rank of the stage `stage`: a later stage has a higher rank.
pub open spec fn priority(stage: PreReleaseType) -> u8 {
    match stage {
        PreReleaseType::Alpha => 1,
        PreReleaseType::Beta => 2,
        PreReleaseType::RC => 4,
    }
}

/// Whether each of `names` names a stage.
pub open spec fn are_stage_names(names: Seq<Seq<char>>) -> bool {
    forall|i: int| 0 <= i < names.len() ==> pre_release_type_of(#[trigger] names[i]) is Some
}

/// The stages that `names` name.
pub open spec fn stages_of(names: Seq<Seq<char>>) -> Seq<PreReleaseType> {
    Seq::new(names.len(), |i: int| pre_release_type_of(names[i])->0)
}

/// The pre-release marker that the text `text` denotes: names of stages
/// with dots between them, at least one, and after them, behind one more
/// dot, optionally a number that fits in an `i32`.
pub open spec fn pre_release_of(text: Seq<char>) -> Option<PreReleaseView> {
    let parts = split(text, '.');
    let counted = is_number(parts.last(), i32::MAX as nat);
    let names = if counted {
        parts.drop_last()
    } else {
        parts
    };
    if names.len() > 0 && are_stage_names(names) {
        Some(
            PreReleaseView {
                chain: stages_of(names),
                version: if counted {
                    Some(decimal_value(parts.last()) as i32)
                } else {
                    None
                },
            },
        )
    } else {
        None
    }
}

/// The names of the stages in `chain`.
pub open spec fn stage_names(chain: Seq<PreReleaseType>) -> Seq<Seq<char>> {
    Seq::new(chain.len(), |i: int| pre_release_type_name(chain[i]))
}

/// The text of the chain of stages `chain`: the names of its stages with
/// dots between them.
pub open spec fn chain_text(chain: Seq<PreReleaseType>) -> Seq<char> {
    join(stage_names(chain), '.')
}

/// The text of the pre-release marker `marker`: the text of its chain and
/// then, if it is counted, a dot and the number.
pub open spec fn pre_release_text(marker: PreReleaseView) -> Seq<char> {
    match marker.version {
        Some(number) => chain_text(marker.chain) + seq!['.'] + signed_decimal_digits(number as int),
        None => chain_text(marker.chain),
    }
}

/// The version that the text `text` denotes. The text may start with a `v`.
/// Then come three numbers that fit in a `u32`, with dots between them;
/// then, optionally, a hyphen and a pre-release marker; then, optionally,
/// a plus sign and the metadata, which is all the text that follows the
/// first plus sign.
pub open spec fn version_of(text: Seq<char>) -> Option<SemanticVersionView> {
    let rest = if text.len() > 0 && text[0] == 'v' {
        text.drop_first()
    } else {
        text
    };
    let plus = index_of(rest, '+');
    let front = rest.take(plus);
    let hyphen = index_of(front, '-');
    let numbers = split(front.take(hyphen), '.');
    if numbers.len() == 3 && is_number(numbers[0], u32::MAX as nat) && is_number(
        numbers[1],
        u32::MAX as nat,
    ) && is_number(numbers[2], u32::MAX as nat) && (hyphen < front.len() ==> pre_release_of(
        front.skip(hyphen + 1),
    ) is Some) {
        Some(
            SemanticVersionView {
                major: decimal_value(numbers[0]) as u32,
                minor: decimal_value(numbers[1]) as u32,
                patch: decimal_value(numbers[2]) as u32,
                pre_release: if hyphen < front.len() {
                    pre_release_of(front.skip(hyphen + 1))
                } else {
                    None
                },
                metadata: if plus < rest.len() {
                    Some(rest.skip(plus + 1))
                } else {
                    None
                },
            },
        )
    } else {
        None
    }
}

/// The text of the version `version`: its three numbers with dots between
/// them and then, if it has metadata, a plus sign and the metadata. The
/// pre-release marker is not written.
pub open spec fn version_text(version: SemanticVersionView) -> Seq<char> {
    let numbers = decimal_digits(version.major as nat) + seq!['.'] + decimal_digits(
        version.minor as nat,
    ) + seq!['.'] + decimal_digits(version.patch as nat);
    match version.metadata {
        Some(metadata) => numbers + seq!['+'] + metadata,
        None => numbers,
    }
}

/// The version that follows `version` once a commit of type `commit_type`
/// is applied, which breaks compatibility if `breaking` is set. A breaking
/// change raises the major number and sets the two others to zero; else a
/// feature raises the minor number and sets the patch number to zero; else a
/// fix raises the patch number; any other commit leaves the version as it
/// is. Pre-release marker and metadata stay.
pub open spec fn next_version(
    version: SemanticVersionView,
    breaking: bool,
    commit_type: CommitTypeView,
) -> SemanticVersionView {
    if breaking {
        SemanticVersionView { major: (version.major + 1) as u32, minor: 0, patch: 0, ..version }
    } else {
        match commit_type {
            CommitTypeView::Feat => SemanticVersionView {
                minor: (version.minor + 1) as u32,
                patch: 0,
                ..version
            },
            CommitTypeView::Fix => SemanticVersionView {
                patch: (version.patch + 1) as u32,
                ..version
            },
            CommitTypeView::Custom(_) => version,
        }
    }
}

/// Whether the number that such a commit raises can be raised: it is not
/// the largest that a version can hold.
pub open spec fn can_apply(
    version: SemanticVersionView,
    breaking: bool,
    commit_type: CommitTypeView,
) -> bool {
    if breaking {
        version.major < u32::MAX
    } else {
        match commit_type {
            CommitTypeView::Feat => version.minor < u32::MAX,
            CommitTypeView::Fix => version.patch < u32::MAX,
            CommitTypeView::Custom(_) => true,
        }
    }
}

/// How the chains of stages `a` and `b` compare: -1 if `a` comes first, 1
/// if `b` comes first, 0 if they are the same. The first stage in which
/// they differ decides, by its rank; a chain that the other continues comes
/// first.
pub open spec fn chain_sign(a: Seq<PreReleaseType>, b: Seq<PreReleaseType>) -> int
    decreases a.len(),
{
    if a.len() == 0 || b.len() == 0 {
        if a.len() < b.len() {
            -1
        } else if a.len() > b.len() {
            1
        } else {
            0
        }
    } else if priority(a[0]) < priority(b[0]) {
        -1
    } else if priority(a[0]) > priority(b[0]) {
        1
    } else {
        chain_sign(a.drop_first(), b.drop_first())
    }
}

/// How the numbers `a` and `b` of two pre-release markers compare: a marker
/// without number comes before one with a number.
pub open spec fn number_sign(a: Option<i32>, b: Option<i32>) -> int {
    match (a, b) {
        (None, None) => 0,
        (None, Some(_)) => -1,
        (Some(_), None) => 1,
        (Some(x), Some(y)) => if x < y {
            -1
        } else if x > y {
            1
        } else {
            0
        },
    }
}

/// How the pre-release markers `a` and `b` compare: by their chains, and
/// where these are the same, by their numbers.
pub open spec fn pre_release_sign(a: PreReleaseView, b: PreReleaseView) -> int {
    if chain_sign(a.chain, b.chain) != 0 {
        chain_sign(a.chain, b.chain)
    } else {
        number_sign(a.version, b.version)
    }
}

/// How the versions `a` and `b` compare, metadata left aside: by the major
/// numbers, then the minor numbers, then the patch numbers. Where these are
/// the same, two versions without pre-release marker are equal, and two
/// with a marker compare as their markers do. A version with a marker and
/// one without, whose numbers are the same, are not comparable.
pub open spec fn version_sign(a: SemanticVersionView, b: SemanticVersionView) -> Option<int> {
    if a.major != b.major {
        Some(if a.major < b.major { -1int } else { 1int })
    } else if a.minor != b.minor {
        Some(if a.minor < b.minor { -1int } else { 1int })
    } else if a.patch != b.patch {
        Some(if a.patch < b.patch { -1int } else { 1int })
    } else {
        match (a.pre_release, b.pre_release) {
            (None, None) => Some(0int),
            (Some(x), Some(y)) => Some(pre_release_sign(x, y)),
            _ => None,
        }
    }
}

/// Whether the versions `a` and `b` are equal: their numbers and their
/// pre-release markers are the same. Metadata does not count.
pub open spec fn same_version(a: SemanticVersionView, b: SemanticVersionView) -> bool {
    a.major == b.major && a.minor == b.minor && a.patch == b.patch && a.pre_release
        == b.pre_release
}

/// The rank of the stage `pre_release`.
pub fn get_release_type_priority(pre_release: &PreReleaseType) -> (rank: u8)
    ensures
        rank == priority(*pre_release),
{
    match pre_release {
        PreReleaseType::Alpha => 1,
        PreReleaseType::Beta => 2,
        PreReleaseType::RC => 4,
    }
}

impl PreReleaseType {
    /// The stage that `str` names: `alpha`, `beta` or `rc`, in small
    /// letters.
    pub fn from(str: &str) -> (stage: Option<PreReleaseType>)
        ensures
            stage == pre_release_type_of(str@),
    {
        if text_is(str, "alpha") {
            Some(PreReleaseType::Alpha)
        } else if text_is(str, "beta") {
            Some(PreReleaseType::Beta)
        } else if text_is(str, "rc") {
            Some(PreReleaseType::RC)
        } else {
            None
        }
    }

    /// The name of the stage.
    pub fn name(&self) -> (name: &'static str)
        ensures
            name@ == pre_release_type_name(*self),
    {
        match self {
            PreReleaseType::Alpha => "alpha",
            PreReleaseType::Beta => "beta",
            PreReleaseType::RC => "rc",
        }
    }

    /// The name of the stage, as a string.
    pub fn to_string(&self) -> (text: String)
        ensures
            text@ == pre_release_type_name(*self),
    {
        String::from_str(self.name())
    }

    /// How this stage compares with `other`: -1, 0 or 1 as its rank is
    /// lower, the same or higher.
    pub fn sign(&self, other: &Self) -> (sign: i8)
        ensures
            sign == (if priority(*self) < priority(*other) {
                -1int
            } else if priority(*self) > priority(*other) {
                1int
            } else {
                0int
            }),
    {
        let mine = get_release_type_priority(self);
        let theirs = get_release_type_priority(other);
        if mine < theirs {
            -1
        } else if mine > theirs {
            1
        } else {
            0
        }
    }
}

impl PreRelease {
    /// The text of the marker: see [`pre_release_text`].
    pub fn to_string(&self) -> (text: String)
        ensures
            text@ == pre_release_text(self@),
    {
        let ghost names = stage_names(self@.chain);
        let mut text = String::new();
        let mut i: usize = 0;
        assert(names.take(0) =~= Seq::<Seq<char>>::empty());
        while i < self.pre_release_type_chain.len()
            invariant
                i <= self.pre_release_type_chain.len(),
                names == stage_names(self@.chain),
                text@ == join(names.take(i as int), '.'),
            decreases self.pre_release_type_chain.len() - i,
        {
            assert(names.take(i as int + 1).drop_last() =~= names.take(i as int));
            assert(names.take(i as int + 1).last() == pre_release_type_name(self@.chain[i as int]));
            if i > 0 {
                push_char(&mut text, '.');
            }
            push_text(&mut text, self.pre_release_type_chain[i].name());
            assert(text@ =~= join(names.take(i as int + 1), '.'));
            i += 1;
        }
        assert(names.take(i as int) =~= names);
        match self.version {
            Some(number) => {
                push_char(&mut text, '.');
                push_signed_decimal(&mut text, number);
                assert(text@ =~= chain_text(self@.chain) + seq!['.'] + signed_decimal_digits(
                    number as int,
                ));
            },
            None => {},
        }
        text
    }

    /// Whether this marker and `other` have the same chain and number.
    pub fn same(&self, other: &Self) -> (b: bool)
        ensures
            b == (self@ == other@),
    {
        let same_number = match (self.version, other.version) {
            (None, None) => true,
            (Some(mine), Some(theirs)) => mine == theirs,
            _ => false,
        };
        if !same_number {
            return false;
        }
        if self.pre_release_type_chain.len() != other.pre_release_type_chain.len() {
            return false;
        }
        let mut i: usize = 0;
        while i < self.pre_release_type_chain.len()
            invariant
                i <= self.pre_release_type_chain.len(),
                self.pre_release_type_chain.len() == other.pre_release_type_chain.len(),
                forall|j: int| 0 <= j < i ==> self@.chain[j] == other@.chain[j],
            decreases self.pre_release_type_chain.len() - i,
        {
            if self.pre_release_type_chain[i] != other.pre_release_type_chain[i] {
                assert(self@.chain[i as int] != other@.chain[i as int]);
                return false;
            }
            i += 1;
        }
        assert(self@.chain =~= other@.chain);
        true
    }

    /// How this marker compares with `other`: -1, 0 or 1 as it comes
    /// before `other`, with it or after it.
    pub fn sign(&self, other: &Self) -> (sign: i8)
        ensures
            sign == pre_release_sign(self@, other@),
    {
        let mine = &self.pre_release_type_chain;
        let theirs = &other.pre_release_type_chain;
        let mut i: usize = 0;
        assert(mine@.skip(0) =~= mine@);
        assert(theirs@.skip(0) =~= theirs@);
        while i < mine.len() && i < theirs.len()
            invariant
                i <= mine.len(),
                i <= theirs.len(),
                mine@ == self@.chain,
                theirs@ == other@.chain,
                chain_sign(mine@, theirs@) == chain_sign(mine@.skip(i as int), theirs@.skip(i as int)),
            decreases mine.len() - i,
        {
            let step = mine[i].sign(&theirs[i]);
            assert(mine@.skip(i as int)[0] == mine@[i as int]);
            assert(theirs@.skip(i as int)[0] == theirs@[i as int]);
            if step != 0 {
                return step;
            }
            assert(mine@.skip(i as int).drop_first() =~= mine@.skip(i as int + 1));
            assert(theirs@.skip(i as int).drop_first() =~= theirs@.skip(i as int + 1));
            i += 1;
        }
        if mine.len() < theirs.len() {
            return -1;
        }
        if mine.len() > theirs.len() {
            return 1;
        }
        match (self.version, other.version) {
            (None, None) => 0,
            (None, Some(_)) => -1,
            (Some(_), None) => 1,
            (Some(x), Some(y)) => if x < y {
                -1
            } else if x > y {
                1
            } else {
                0
            },
        }
    }
}

/// The pre-release marker that the names and the number in `parts` denote.
fn pre_release_from_parts(parts: &Vec<String>) -> (marker: Option<PreRelease>)
    requires
        parts@.len() >= 1,
    ensures
        pre_release_view(marker) == ({
            let texts = string_views(parts@);
            let counted = is_number(texts.last(), i32::MAX as nat);
            let names = if counted {
                texts.drop_last()
            } else {
                texts
            };
            if names.len() > 0 && are_stage_names(names) {
                Some(
                    PreReleaseView {
                        chain: stages_of(names),
                        version: if counted {
                            Some(decimal_value(texts.last()) as i32)
                        } else {
                            None
                        },
                    },
                )
            } else {
                None::<PreReleaseView>
            }
        }),
{
    let ghost texts = string_views(parts@);
    let number = parse_number(parts[parts.len() - 1].as_str(), 0x7fff_ffff);
    let named = if number.is_some() {
        parts.len() - 1
    } else {
        parts.len()
    };
    let ghost names = texts.take(named as int);
    assert(names =~= if number is Some {
        texts.drop_last()
    } else {
        texts
    });
    if named == 0 {
        return None;
    }
    let mut chain: Vec<PreReleaseType> = Vec::new();
    let mut i: usize = 0;
    while i < named
        invariant
            i <= named <= parts.len(),
            texts == string_views(parts@),
            names == texts.take(named as int),
            names == (if is_number(texts.last(), i32::MAX as nat) {
                texts.drop_last()
            } else {
                texts
            }),
            chain@.len() == i,
            forall|j: int| 0 <= j < i ==> pre_release_type_of(#[trigger] names[j]) == Some(chain@[j]),
        decreases named - i,
    {
        match PreReleaseType::from(parts[i].as_str()) {
            Some(stage) => {
                chain.push(stage);
            },
            None => {
                assert(pre_release_type_of(names[i as int]) is None);
                return None;
            },
        }
        i += 1;
    }
    assert(chain@ =~= stages_of(names));
    let version = match number {
        Some(value) => Some(value as i32),
        None => None,
    };
    Some(PreRelease { pre_release_type_chain: chain, version })
}

impl SemanticVersion {
    /// A version of the given parts.
    pub fn new(
        major: u32,
        minor: u32,
        patch: u32,
        pre_release: Option<PreRelease>,
        metadata: Option<String>,
    ) -> (version: Self)
        ensures
            version.major == major,
            version.minor == minor,
            version.patch == patch,
            version.pre_release == pre_release,
            version.metadata == metadata,
    {
        Self { major, minor, patch, pre_release, metadata }
    }

    /// The version that the text `input` denotes, or `None` if it denotes
    /// none: see [`version_of`].
    pub fn from(input: String) -> (version: Option<Self>)
        ensures
            version_view(version) == version_of(input@),
    {
        let chars = to_chars(input.as_str());
        let end = chars.len();
        let start: usize = if end > 0 && chars[0] == 'v' {
            1
        } else {
            0
        };
        let ghost rest = chars@.subrange(start as int, end as int);
        assert(rest =~= if chars@.len() > 0 && chars@[0] == 'v' {
            chars@.drop_first()
        } else {
            chars@
        });
        let plus = find_char(&chars, start, end, '+');
        let ghost front = chars@.subrange(start as int, plus as int);
        assert(front =~= rest.take(plus - start));
        let hyphen = find_char(&chars, start, plus, '-');
        assert(chars@.subrange(start as int, hyphen as int) =~= front.take(hyphen - start));
        let numbers = split_range(&chars, start, hyphen, '.');
        if numbers.len() != 3 {
            return None;
        }
        let ghost texts = string_views(numbers@);
        assert(texts[0] == numbers@[0]@ && texts[1] == numbers@[1]@ && texts[2] == numbers@[2]@);
        let major = match parse_number(numbers[0].as_str(), 0xffff_ffff) {
            Some(value) => value,
            None => {
                return None;
            },
        };
        let minor = match parse_number(numbers[1].as_str(), 0xffff_ffff) {
            Some(value) => value,
            None => {
                return None;
            },
        };
        let patch = match parse_number(numbers[2].as_str(), 0xffff_ffff) {
            Some(value) => value,
            None => {
                return None;
            },
        };
        let mut pre_release: Option<PreRelease> = None;
        if hyphen < plus {
            assert(chars@.subrange(hyphen as int + 1, plus as int) =~= front.skip(
                hyphen - start + 1,
            ));
            let parts = split_range(&chars, hyphen + 1, plus, '.');
            match pre_release_from_parts(&parts) {
                Some(marker) => {
                    pre_release = Some(marker);
                },
                None => {
                    return None;
                },
            }
        }
        let mut metadata: Option<String> = None;
        if plus < end {
            assert(chars@.subrange(plus as int + 1, end as int) =~= rest.skip(plus - start + 1));
            let mut text = String::new();
            append_chars(&mut text, &chars, plus + 1, end);
            assert(text@ =~= rest.skip(plus - start + 1));
            metadata = Some(text);
        }
        Some(Self { major, minor, patch, pre_release, metadata })
    }

    /// The version that follows this one once `commit` is applied: see
    /// [`next_version`].
    pub fn apply_commit(self, commit: ConventionalCommit) -> (next: SemanticVersion)
        requires
            can_apply(self@, commit.is_breaking_change, commit.commit_type@),
        ensures
            next@ == next_version(self@, commit.is_breaking_change, commit.commit_type@),
    {
        if commit.is_breaking_change {
            return Self::new(self.major + 1, 0, 0, self.pre_release, self.metadata);
        }
        match commit.commit_type {
            CommitType::Feat => Self::new(
                self.major,
                self.minor + 1,
                0,
                self.pre_release,
                self.metadata,
            ),
            CommitType::Fix => Self::new(
                self.major,
                self.minor,
                self.patch + 1,
                self.pre_release,
                self.metadata,
            ),
            CommitType::Custom(_) => Self::new(
                self.major,
                self.minor,
                self.patch,
                self.pre_release,
                self.metadata,
            ),
        }
    }

    /// The text of the version: see [`version_text`].
    pub fn to_string(&self) -> (text: String)
        ensures
            text@ == version_text(self@),
    {
        let mut text = String::new();
        push_decimal(&mut text, self.major);
        push_char(&mut text, '.');
        push_decimal(&mut text, self.minor);
        push_char(&mut text, '.');
        push_decimal(&mut text, self.patch);
        match &self.metadata {
            Some(metadata) => {
                push_char(&mut text, '+');
                push_text(&mut text, metadata.as_str());
                assert(text@ =~= version_text(self@));
            },
            None => {
                assert(text@ =~= version_text(self@));
            },
        }
        text
    }

    /// Whether this version and `other` are equal: see [`same_version`].
    pub fn same(&self, other: &Self) -> (b: bool)
        ensures
            b == same_version(self@, other@),
    {
        if self.major != other.major || self.minor != other.minor || self.patch != other.patch {
            return false;
        }
        match (&self.pre_release, &other.pre_release) {
            (None, None) => true,
            (Some(mine), Some(theirs)) => mine.same(theirs),
            _ => false,
        }
    }

    /// How this version compares with `other`: -1, 0 or 1 as it comes
    /// before `other`, with it or after it, or `None` if the two are not
    /// comparable. See [`version_sign`].
    pub fn sign(&self, other: &Self) -> (sign: Option<i8>)
        ensures
            sign is Some <==> version_sign(self@, other@) is Some,
            sign matches Some(s) ==> s == version_sign(self@, other@)->0,
    {
        if self.major != other.major {
            return Some(if self.major < other.major { -1 } else { 1 });
        }
        if self.minor != other.minor {
            return Some(if self.minor < other.minor { -1 } else { 1 });
        }
        if self.patch != other.patch {
            return Some(if self.patch < other.patch { -1 } else { 1 });
        }
        match (&self.pre_release, &other.pre_release) {
            (None, None) => Some(0),
            (Some(mine), Some(theirs)) => Some(mine.sign(theirs)),
            _ => None,
        }
    }
}

/// The view of the version `version`, if there is one.
pub open spec fn version_view(version: Option<SemanticVersion>) -> Option<SemanticVersionView> {
    match version {
        Some(version) => Some(version@),
        None => None,
    }
}

/// Two chains of stages compare as equal if and only if they are the same.
pub proof fn lemma_chain_sign_zero(a: Seq<PreReleaseType>, b: Seq<PreReleaseType>)
    ensures
        chain_sign(a, b) == 0 <==> a == b,
    decreases a.len(),
{
    if a.len() == 0 || b.len() == 0 {
        if a.len() == b.len() {
            assert(a =~= b);
        }
    } else {
        lemma_chain_sign_zero(a.drop_first(), b.drop_first());
        if priority(a[0]) == priority(b[0]) {
            assert(a[0] == b[0]);
            if a.drop_first() == b.drop_first() {
                assert forall|i: int| 0 <= i < a.len() implies a[i] == b[i] by {
                    if i > 0 {
                        assert(a[i] == a.drop_first()[i - 1]);
                        assert(b[i] == b.drop_first()[i - 1]);
                    }
                }
                assert(a =~= b);
            }
        }
    }
}

/// Comparing two chains of stages the other way round gives the opposite.
pub proof fn lemma_chain_sign_reverse(a: Seq<PreReleaseType>, b: Seq<PreReleaseType>)
    ensures
        chain_sign(b, a) == -chain_sign(a, b),
    decreases a.len(),
{
    if a.len() > 0 && b.len() > 0 {
        lemma_chain_sign_reverse(a.drop_first(), b.drop_first());
    }
}

/// The order of chains of stages is transitive: a chain that comes before
/// or with a second, which comes before or with a third, comes before or
/// with the third, and before it if one of the two steps was a step forward.
pub proof fn lemma_chain_sign_transitive(
    a: Seq<PreReleaseType>,
    b: Seq<PreReleaseType>,
    c: Seq<PreReleaseType>,
)
    requires
        chain_sign(a, b) <= 0,
        chain_sign(b, c) <= 0,
    ensures
        chain_sign(a, c) <= 0,
        chain_sign(a, b) < 0 || chain_sign(b, c) < 0 ==> chain_sign(a, c) < 0,
    decreases a.len(),
{
    if a.len() > 0 && b.len() > 0 && c.len() > 0 {
        if priority(a[0]) == priority(b[0]) && priority(b[0]) == priority(c[0]) {
            lemma_chain_sign_transitive(a.drop_first(), b.drop_first(), c.drop_first());
        }
    }
}

/// Two pre-release markers compare as equal if and only if they are the
/// same, and comparing them the other way round gives the opposite.
pub proof fn lemma_pre_release_sign(a: PreReleaseView, b: PreReleaseView)
    ensures
        pre_release_sign(a, b) == 0 <==> a == b,
        pre_release_sign(b, a) == -pre_release_sign(a, b),
{
    lemma_chain_sign_zero(a.chain, b.chain);
    lemma_chain_sign_reverse(a.chain, b.chain);
}

/// Equality and order agree: two versions are equal if and only if they
/// compare as equal.
pub proof fn lemma_equal_versions_compare_equal(a: SemanticVersionView, b: SemanticVersionView)
    ensures
        same_version(a, b) <==> version_sign(a, b) == Some(0int),
{
    if a.pre_release is Some && b.pre_release is Some {
        lemma_pre_release_sign(a.pre_release->0, b.pre_release->0);
    }
}

/// Comparing two versions the other way round gives the opposite: if one
/// comes before the other, the other comes after it, and if they are not
/// comparable one way, they are not the other way either.
pub proof fn lemma_version_sign_reverse(a: SemanticVersionView, b: SemanticVersionView)
    ensures
        version_sign(b, a) == match version_sign(a, b) {
            Some(sign) => Some(-sign),
            None => None,
        },
{
    if a.pre_release is Some && b.pre_release is Some {
        lemma_pre_release_sign(a.pre_release->0, b.pre_release->0);
    }
}

/// The order of versions is transitive: a version that comes before or with
/// a second, which comes before or with a third, comes before or with the
/// third, and before it if one of the two steps was a step forward.
pub proof fn lemma_version_sign_transitive(
    a: SemanticVersionView,
    b: SemanticVersionView,
    c: SemanticVersionView,
)
    requires
        version_sign(a, b) matches Some(first) && first <= 0,
        version_sign(b, c) matches Some(second) && second <= 0,
    ensures
        version_sign(a, c) matches Some(both) && both <= 0 && (version_sign(a, b)->0 < 0
            || version_sign(b, c)->0 < 0 ==> both < 0),
{
    if a.major == b.major && b.major == c.major && a.minor == b.minor && b.minor == c.minor
        && a.patch == b.patch && b.patch == c.patch {
        if a.pre_release is Some {
            let x = a.pre_release->0;
            let y = b.pre_release->0;
            let z = c.pre_release->0;
            lemma_chain_sign_transitive(x.chain, y.chain, z.chain);
            lemma_chain_sign_zero(x.chain, y.chain);
            lemma_chain_sign_zero(y.chain, z.chain);
            lemma_chain_sign_zero(x.chain, z.chain);
        }
    }
}

/// Metadata counts neither for equality nor for order: two versions that
/// differ in nothing but their metadata are equal and compare as equal.
pub proof fn lemma_metadata_ignored(a: SemanticVersionView, b: SemanticVersionView)
    requires
        a.major == b.major,
        a.minor == b.minor,
        a.patch == b.patch,
        a.pre_release == b.pre_release,
    ensures
        same_version(a, b),
        version_sign(a, b) == Some(0int),
{
    lemma_equal_versions_compare_equal(a, b);
}

/// The name of a stage names that stage and no other. It holds no dot and
/// does not start with a digit.
pub proof fn lemma_stage_name(stage: PreReleaseType)
    ensures
        pre_release_type_of(pre_release_type_name(stage)) == Some(stage),
        pre_release_type_name(stage).len() > 0,
        !is_digit(pre_release_type_name(stage)[0]),
        forall|j: int|
            0 <= j < pre_release_type_name(stage).len() ==> pre_release_type_name(stage)[j] != '.',
{
    reveal_strlit("alpha");
    reveal_strlit("beta");
    reveal_strlit("rc");
    assert("alpha"@.len() == 5 && "beta"@.len() == 4 && "rc"@.len() == 2);
}

/// Reading the text of a pre-release marker gives the marker back, provided
/// that it has a stage and that its number, if it has one, is not negative.
pub proof fn lemma_pre_release_text_round_trip(marker: PreReleaseView)
    requires
        marker.chain.len() > 0,
        marker.version matches Some(number) ==> number >= 0,
    ensures
        pre_release_of(pre_release_text(marker)) == Some(marker),
{
    let names = stage_names(marker.chain);
    assert forall|i: int| 0 <= i < names.len() implies pre_release_type_of(#[trigger] names[i])
        == Some(marker.chain[i]) && names[i].len() > 0 && !is_digit(names[i][0]) by {
        lemma_stage_name(marker.chain[i]);
    }
    assert forall|i: int, j: int|
        0 <= i < names.len() && 0 <= j < names[i].len() implies #[trigger] names[i][j] != '.' by {
        lemma_stage_name(marker.chain[i]);
    }
    assert(stages_of(names) =~= marker.chain);
    match marker.version {
        None => {
            lemma_split_of_join(names, '.');
            assert(!all_digits(names.last())) by {
                assert(!is_digit(names.last()[0]));
            }
        },
        Some(number) => {
            let digits = decimal_digits(number as nat);
            lemma_decimal_round_trip(number as nat);
            let parts = names.push(digits);
            assert(parts.drop_last() =~= names);
            assert forall|i: int, j: int|
                0 <= i < parts.len() && 0 <= j < parts[i].len() implies #[trigger] parts[i][j]
                != '.' by {
                if i < names.len() {
                    assert(parts[i][j] == names[i][j]);
                } else {
                    assert(is_digit(digits[j]));
                }
            }
            lemma_split_of_join(parts, '.');
            assert(join(parts, '.') =~= pre_release_text(marker));
        },
    }
}

/// A number written in base ten holds none of the characters that part the
/// pieces of a version, and does not start with a `v`.
proof fn lemma_digits_hold_no_mark(digits: Seq<char>)
    requires
        all_digits(digits),
    ensures
        forall|i: int|
            0 <= i < digits.len() ==> digits[i] != '.' && digits[i] != '+' && digits[i] != '-'
                && digits[i] != 'v',
{
    assert forall|i: int| 0 <= i < digits.len() implies digits[i] != '.' && digits[i] != '+'
        && digits[i] != '-' && digits[i] != 'v' by {
        assert(is_digit(digits[i]));
    }
}

/// Reading the text of a version gives the version back: its numbers and
/// its metadata. (The text does not hold the pre-release marker, so this is
/// stated of versions without one.)
pub proof fn lemma_version_text_round_trip(version: SemanticVersionView)
    requires
        version.pre_release is None,
    ensures
        version_of(version_text(version)) == Some(version),
{
    let major = decimal_digits(version.major as nat);
    let minor = decimal_digits(version.minor as nat);
    let patch = decimal_digits(version.patch as nat);
    lemma_decimal_round_trip(version.major as nat);
    lemma_decimal_round_trip(version.minor as nat);
    lemma_decimal_round_trip(version.patch as nat);
    lemma_digits_hold_no_mark(major);
    lemma_digits_hold_no_mark(minor);
    lemma_digits_hold_no_mark(patch);
    let numbers = major + seq!['.'] + minor + seq!['.'] + patch;
    let text = version_text(version);
    assert(text[0] == major[0]);
    assert(text.take(numbers.len() as int) =~= numbers);
    assert forall|i: int| 0 <= i < numbers.len() implies numbers[i] != '+' && numbers[i]
        != '-' by {
        if i < major.len() {
            assert(numbers[i] == major[i]);
        } else if i == major.len() {
        } else if i < major.len() + 1 + minor.len() {
            assert(numbers[i] == minor[i - major.len() - 1]);
        } else if i == major.len() + 1 + minor.len() {
        } else {
            assert(numbers[i] == patch[i - major.len() - minor.len() - 2]);
        }
    }
    assert forall|i: int| 0 <= i < numbers.len() implies text[i] != '+' by {
        assert(text[i] == numbers[i]);
    }
    lemma_index_of(text, '+', numbers.len() as int);
    lemma_index_of(numbers, '-', numbers.len() as int);
    assert(numbers.take(numbers.len() as int) =~= numbers);
    lemma_split_joined(major + seq!['.'] + minor, patch, '.');
    lemma_split_joined(major, minor, '.');
    lemma_split_whole(major, '.');
    lemma_split_whole(minor, '.');
    lemma_split_whole(patch, '.');
    assert(split(numbers, '.') =~= seq![major, minor, patch]);
    match version.metadata {
        Some(metadata) => {
            assert(text.skip(numbers.len() as int + 1) =~= metadata);
        },
        None => {},
    }
}

/// The order that the sign `sign` stands for.
pub open spec fn ordering_of(sign: int) -> Ordering {
    if sign < 0 {
        Ordering::Less
    } else if sign == 0 {
        Ordering::Equal
    } else {
        Ordering::Greater
    }
}

/// The order that the sign `sign` stands for.
fn ordering_from(sign: i8) -> (order: Ordering)
    ensures
        sign < 0 ==> order == Ordering::Less,
        sign == 0 ==> order == Ordering::Equal,
        sign > 0 ==> order == Ordering::Greater,
{
    if sign < 0 {
        Ordering::Less
    } else if sign == 0 {
        Ordering::Equal
    } else {
        Ordering::Greater
    }
}

impl PartialOrd for PreReleaseType {
    fn partial_cmp(&self, other: &Self) -> (order: Option<Ordering>) {
        Some(ordering_from(self.sign(other)))
    }
}

impl vstd::std_specs::cmp::PartialOrdSpecImpl for PreReleaseType {
    open spec fn obeys_partial_cmp_spec() -> bool {
        true
    }

    open spec fn partial_cmp_spec(&self, other: &Self) -> Option<Ordering> {
        Some(
            if priority(*self) < priority(*other) {
                Ordering::Less
            } else if priority(*self) > priority(*other) {
                Ordering::Greater
            } else {
                Ordering::Equal
            },
        )
    }
}

impl PartialEq for PreRelease {
    fn eq(&self, other: &Self) -> (b: bool) {
        self.same(other)
    }
}

impl vstd::std_specs::cmp::PartialEqSpecImpl for PreRelease {
    open spec fn obeys_eq_spec() -> bool {
        true
    }

    open spec fn eq_spec(&self, other: &Self) -> bool {
        self@ == other@
    }
}

impl PartialOrd for PreRelease {
    fn partial_cmp(&self, other: &Self) -> (order: Option<Ordering>) {
        Some(ordering_from(self.sign(other)))
    }
}

impl vstd::std_specs::cmp::PartialOrdSpecImpl for PreRelease {
    open spec fn obeys_partial_cmp_spec() -> bool {
        true
    }

    open spec fn partial_cmp_spec(&self, other: &Self) -> Option<Ordering> {
        Some(ordering_of(pre_release_sign(self@, other@)))
    }
}

impl PartialEq for SemanticVersion {
    fn eq(&self, other: &Self) -> (b: bool) {
        self.same(other)
    }
}

impl vstd::std_specs::cmp::PartialEqSpecImpl for SemanticVersion {
    open spec fn obeys_eq_spec() -> bool {
        true
    }

    open spec fn eq_spec(&self, other: &Self) -> bool {
        same_version(self@, other@)
    }
}

impl PartialOrd for SemanticVersion {
    fn partial_cmp(&self, other: &Self) -> (order: Option<Ordering>) {
        match self.sign(other) {
            Some(sign) => Some(ordering_from(sign)),
            None => None,
        }
    }
}

impl vstd::std_specs::cmp::PartialOrdSpecImpl for SemanticVersion {
    open spec fn obeys_partial_cmp_spec() -> bool {
        true
    }

    open spec fn partial_cmp_spec(&self, other: &Self) -> Option<Ordering> {
        match version_sign(self@, other@) {
            Some(sign) => Some(ordering_of(sign)),
            None => None,
        }
    }
}

} // verus!
