use con_comm::conventional_commit::{CommitType, ConventionalCommit};
use con_comm::semantic_version::PreReleaseType::{Alpha, Beta, RC};
use con_comm::semantic_version::{
    get_release_type_priority, PreRelease, PreReleaseType, SemanticVersion,
};
use std::cmp::Ordering;

fn commit(commit_type: CommitType, is_breaking_change: bool) -> ConventionalCommit {
    ConventionalCommit {
        commit_type,
        scopes: None,
        description: String::from("change"),
        body: None,
        footer: None,
        is_breaking_change,
    }
}

fn marker(chain: Vec<PreReleaseType>, version: Option<i32>) -> Option<PreRelease> {
    Some(PreRelease {
        pre_release_type_chain: chain,
        version,
    })
}

fn parse(text: &str) -> Option<SemanticVersion> {
    SemanticVersion::from(String::from(text))
}

fn parts(version: &SemanticVersion) -> (u32, u32, u32, Option<String>) {
    (
        version.major,
        version.minor,
        version.patch,
        version.metadata.clone(),
    )
}

#[test]
fn breaking_change_raises_major_and_resets_the_rest() {
    let version = SemanticVersion::new(1, 2, 3, None, None);

    let next = version.apply_commit(commit(CommitType::Fix, true));

    assert_eq!(parts(&next), (2, 0, 0, None));
}

#[test]
fn breaking_change_comes_before_the_type() {
    let feat = SemanticVersion::new(4, 5, 6, None, None).apply_commit(commit(CommitType::Feat, true));
    let custom = SemanticVersion::new(4, 5, 6, None, None)
        .apply_commit(commit(CommitType::Custom(String::from("docs")), true));

    assert_eq!(parts(&feat), (5, 0, 0, None));
    assert_eq!(parts(&custom), (5, 0, 0, None));
}

#[test]
fn feature_raises_minor_and_resets_patch() {
    let version = SemanticVersion::new(1, 2, 3, None, None);

    let next = version.apply_commit(commit(CommitType::Feat, false));

    assert_eq!(parts(&next), (1, 3, 0, None));
}

#[test]
fn fix_raises_patch() {
    let version = SemanticVersion::new(1, 2, 3, None, None);

    let next = version.apply_commit(commit(CommitType::Fix, false));

    assert_eq!(parts(&next), (1, 2, 4, None));
}

#[test]
fn custom_commit_leaves_the_version() {
    let version = SemanticVersion::new(1, 2, 3, None, None);

    let next = version.apply_commit(commit(CommitType::Custom(String::from("docs")), false));

    assert_eq!(parts(&next), (1, 2, 3, None));
}

#[test]
fn applying_a_commit_keeps_marker_and_metadata() {
    for (commit_type, breaking) in [
        (CommitType::Fix, true),
        (CommitType::Feat, false),
        (CommitType::Fix, false),
        (CommitType::Custom(String::from("ci")), false),
    ] {
        let version = SemanticVersion::new(
            0,
            9,
            9,
            marker(vec![Beta, RC], Some(2)),
            Some(String::from("build.7")),
        );

        let next = version.apply_commit(commit(commit_type, breaking));

        assert_eq!(next.pre_release, marker(vec![Beta, RC], Some(2)));
        assert_eq!(next.metadata, Some(String::from("build.7")));
    }
}

#[test]
fn apply_commit_reaches_the_largest_numbers() {
    let top = u32::MAX;

    let major = SemanticVersion::new(top - 1, 0, 0, None, None).apply_commit(commit(CommitType::Fix, true));
    let minor = SemanticVersion::new(top, top - 1, 0, None, None).apply_commit(commit(CommitType::Feat, false));
    let patch = SemanticVersion::new(top, top, top - 1, None, None).apply_commit(commit(CommitType::Fix, false));

    assert_eq!(parts(&major), (top, 0, 0, None));
    assert_eq!(parts(&minor), (top, top, 0, None));
    assert_eq!(parts(&patch), (top, top, top, None));
}

#[test]
fn version_is_read_from_three_numbers() {
    let version = parse("1.22.333").unwrap();

    assert_eq!(parts(&version), (1, 22, 333, None));
    assert_eq!(version.pre_release, None);
}

#[test]
fn version_with_leading_zeros_and_largest_numbers() {
    assert_eq!(parts(&parse("001.02.0").unwrap()), (1, 2, 0, None));
    assert_eq!(
        parts(&parse("4294967295.4294967295.4294967295").unwrap()),
        (u32::MAX, u32::MAX, u32::MAX, None)
    );
}

#[test]
fn version_with_marker_and_metadata() {
    let version = parse("v1.2.3-alpha.beta.12+exp.sha-5114f85+x").unwrap();

    assert_eq!(
        parts(&version),
        (1, 2, 3, Some(String::from("exp.sha-5114f85+x")))
    );
    assert_eq!(version.pre_release, marker(vec![Alpha, Beta], Some(12)));
}

#[test]
fn version_with_marker_without_number() {
    assert_eq!(parse("1.0.0-rc").unwrap().pre_release, marker(vec![RC], None));
    assert_eq!(
        parse("1.0.0-alpha.rc.beta").unwrap().pre_release,
        marker(vec![Alpha, RC, Beta], None)
    );
    assert_eq!(
        parse("1.0.0-beta.0").unwrap().pre_release,
        marker(vec![Beta], Some(0))
    );
    assert_eq!(
        parse("1.0.0-beta.2147483647").unwrap().pre_release,
        marker(vec![Beta], Some(i32::MAX))
    );
}

#[test]
fn version_with_empty_metadata() {
    let version = parse("1.2.3+").unwrap();

    assert_eq!(parts(&version), (1, 2, 3, Some(String::new())));
}

#[test]
fn text_that_is_no_version() {
    for text in [
        "",
        "v",
        "1",
        "1.2",
        "1.2.3.4",
        "1..3",
        "1.2.",
        ".1.2",
        "a.b.c",
        "1.2.x",
        "V1.2.3",
        "vv1.2.3",
        " 1.2.3",
        "1.2.3 ",
        "+1.2.3",
        "-1.2.3",
        "1.-2.3",
        "4294967296.0.0",
        "0.4294967296.0",
        "0.0.99999999999999999999999999",
        "1.2.3-",
        "1.2.3-1",
        "1.2.3-gamma",
        "1.2.3-Alpha",
        "1.2.3-alpha.",
        "1.2.3-alpha..1",
        "1.2.3-alpha.1.beta",
        "1.2.3-alpha.1.2",
        "1.2.3-alpha-beta",
        "1.2.3-alpha.2147483648",
        "1.2.3-alpha.-1",
        "1.2.\u{664}",
    ] {
        assert!(parse(text).is_none(), "{:?} was read as a version", text);
    }
}

#[test]
fn version_text_has_numbers_and_metadata_only() {
    let version = SemanticVersion::new(
        10,
        0,
        4294967295,
        marker(vec![Alpha], Some(1)),
        Some(String::from("001")),
    );

    assert_eq!(version.to_string(), "10.0.4294967295+001");
    assert_eq!(SemanticVersion::new(0, 0, 0, None, None).to_string(), "0.0.0");
}

#[test]
fn reading_the_text_of_a_version_gives_the_version_back() {
    for metadata in [None, Some(""), Some("202105272159"), Some("a+b-c.d v")] {
        let version = SemanticVersion::new(32, 0, 4, None, metadata.map(String::from));

        let read = parse(&version.to_string()).unwrap();

        assert_eq!(parts(&read), (32, 0, 4, metadata.map(String::from)));
        assert_eq!(read.pre_release, None);
    }
}

#[test]
fn reading_the_text_of_a_marker_gives_the_marker_back() {
    for (chain, version) in [
        (vec![Alpha], None),
        (vec![RC, Beta, Alpha], None),
        (vec![Beta], Some(0)),
        (vec![Alpha, Alpha], Some(17)),
        (vec![RC], Some(i32::MAX)),
    ] {
        let text = format!(
            "7.8.9-{}",
            marker(chain.clone(), version).unwrap().to_string()
        );

        let read = parse(&text).unwrap();

        assert_eq!(read.pre_release, marker(chain, version), "{}", text);
        assert_eq!(parts(&read), (7, 8, 9, None));
    }
}

#[test]
fn marker_text_joins_stages_and_number_with_dots() {
    let plain = PreRelease {
        pre_release_type_chain: vec![RC],
        version: None,
    };
    let counted = PreRelease {
        pre_release_type_chain: vec![Beta, Alpha],
        version: Some(2147483647),
    };
    let negative = PreRelease {
        pre_release_type_chain: vec![Alpha],
        version: Some(i32::MIN),
    };
    let bare = PreRelease {
        pre_release_type_chain: vec![],
        version: Some(7),
    };

    assert_eq!(plain.to_string(), "rc");
    assert_eq!(counted.to_string(), "beta.alpha.2147483647");
    assert_eq!(negative.to_string(), "alpha.-2147483648");
    assert_eq!(bare.to_string(), ".7");
}

#[test]
fn stage_names_and_ranks() {
    assert_eq!(Alpha.to_string(), "alpha");
    assert_eq!(Beta.to_string(), "beta");
    assert_eq!(RC.to_string(), "rc");
    assert_eq!(Alpha.name(), "alpha");
    assert_eq!(get_release_type_priority(&Alpha), 1);
    assert_eq!(get_release_type_priority(&Beta), 2);
    assert_eq!(get_release_type_priority(&RC), 4);
    assert_eq!(PreReleaseType::from("RC"), None);
    assert_eq!(PreReleaseType::from(""), None);
    assert_eq!(PreReleaseType::from("alpha "), None);
}

#[test]
fn stages_compare_by_rank() {
    assert_eq!(Alpha.partial_cmp(&Alpha), Some(Ordering::Equal));
    assert_eq!(Alpha.partial_cmp(&RC), Some(Ordering::Less));
    assert_eq!(RC.partial_cmp(&Beta), Some(Ordering::Greater));
    assert_eq!(Beta.sign(&RC), -1);
    assert_eq!(Beta.sign(&Beta), 0);
    assert_eq!(Beta.sign(&Alpha), 1);
}

#[test]
fn markers_compare_by_chain_and_then_by_number() {
    let alpha = marker(vec![Alpha], None).unwrap();
    let alpha_1 = marker(vec![Alpha], Some(1)).unwrap();
    let alpha_2 = marker(vec![Alpha], Some(2)).unwrap();
    let alpha_beta = marker(vec![Alpha, Beta], None).unwrap();
    let beta = marker(vec![Beta], None).unwrap();

    assert!(alpha < alpha_1);
    assert!(alpha_1 < alpha_2);
    assert!(alpha_2 < alpha_beta);
    assert!(alpha_beta < beta);
    assert!(beta > alpha_2);
    assert_eq!(alpha_1.sign(&alpha_2), -1);
    assert_eq!(alpha_2.sign(&alpha_1), 1);
    assert_eq!(alpha_beta.sign(&alpha_beta), 0);
    assert_eq!(alpha_1.partial_cmp(&alpha_1), Some(Ordering::Equal));
    assert_eq!(alpha_1, marker(vec![Alpha], Some(1)).unwrap());
    assert_ne!(alpha_1, alpha_2);
    assert_ne!(alpha, alpha_beta);
    assert_ne!(alpha_beta, marker(vec![Alpha, RC], None).unwrap());
}

#[test]
fn versions_with_markers_compare_by_their_markers() {
    let alpha = SemanticVersion::new(1, 0, 0, marker(vec![Alpha], None), None);
    let beta = SemanticVersion::new(1, 0, 0, marker(vec![Beta], Some(3)), None);
    let later = SemanticVersion::new(1, 0, 1, marker(vec![Alpha], None), None);

    assert!(alpha < beta);
    assert!(beta > alpha);
    assert!(beta < later);
    assert_ne!(alpha, beta);
    assert_eq!(alpha.sign(&beta), Some(-1));
    assert_eq!(later.sign(&beta), Some(1));
}

#[test]
fn version_with_marker_and_version_without_are_not_comparable() {
    let release = SemanticVersion::new(1, 0, 0, None, None);
    let pre_release = SemanticVersion::new(1, 0, 0, marker(vec![RC], Some(1)), None);

    assert_eq!(release.partial_cmp(&pre_release), None);
    assert_eq!(pre_release.partial_cmp(&release), None);
    assert_eq!(release.sign(&pre_release), None);
    assert!(!(release < pre_release));
    assert!(!(release > pre_release));
    assert_ne!(release, pre_release);
    assert!(release < SemanticVersion::new(1, 0, 1, marker(vec![RC], Some(1)), None));
}

#[test]
fn metadata_counts_neither_for_equality_nor_for_order() {
    let first = SemanticVersion::new(
        3,
        1,
        4,
        marker(vec![Beta], Some(1)),
        Some(String::from("one")),
    );
    let second = SemanticVersion::new(
        3,
        1,
        4,
        marker(vec![Beta], Some(1)),
        Some(String::from("two")),
    );

    assert_eq!(first, second);
    assert!(first.same(&second));
    assert_eq!(first.partial_cmp(&second), Some(Ordering::Equal));
    assert!(first <= second && first >= second);

    let read_one = parse("v32.12.4+202105272159").unwrap();
    let read_two = parse("32.12.4+other").unwrap();
    assert_eq!(read_one, read_two);
}
