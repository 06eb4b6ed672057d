use con_comm::conventional_commit::CommitType::{Feat, Fix};
use con_comm::conventional_commit::{CommitType, ConventionalCommit};
use con_comm::semantic_version::PreReleaseType::{Alpha, Beta, RC};
use con_comm::semantic_version::{PreRelease, PreReleaseType, SemanticVersion};

#[test]
fn should_increase_major_version_when_introducing_breaking_change() {
    // given
    let version = SemanticVersion::new(1, 0, 0, None, None);
    let commit = ConventionalCommit {
        commit_type: Fix,
        is_breaking_change: true,
        description: String::from("Some big breaking change"),
        body: None,
        footer: None,
        scopes: None,
    };

    // when
    let new_version = version.apply_commit(commit);

    // then
    assert_eq!(new_version, SemanticVersion::new(2, 0, 0, None, None));
}

#[test]
fn should_increase_minor_version_when_introducing_new_feature() {
    // given
    let version = SemanticVersion::new(1, 0, 0, None, None);
    let commit = ConventionalCommit {
        commit_type: Feat,
        is_breaking_change: false,
        description: String::from("Some new feature"),
        body: None,
        footer: None,
        scopes: None,
    };

    // when
    let new_version = version.apply_commit(commit);

    // then
    assert_eq!(new_version, SemanticVersion::new(1, 1, 0, None, None));
}

#[test]
fn should_increase_minor_version_when_introducing_a_fix() {
    // given
    let version = SemanticVersion::new(1, 0, 0, None, None);
    let commit = ConventionalCommit {
        commit_type: Fix,
        is_breaking_change: false,
        description: String::from("Some bugfix"),
        body: None,
        footer: None,
        scopes: None,
    };

    // when
    let new_version = version.apply_commit(commit);

    // then
    assert_eq!(new_version, SemanticVersion::new(1, 0, 1, None, None));
}

#[test]
fn should_keep_version_as_it_was_when_applying_custom_type_of_commit() {
    // given
    let version = SemanticVersion::new(1, 0, 0, None, None);
    let commit = ConventionalCommit {
        commit_type: CommitType::Custom(String::from("docs")),
        is_breaking_change: false,
        description: String::from("Updated documentation"),
        body: None,
        footer: None,
        scopes: None,
    };

    // when
    let new_version = version.apply_commit(commit);

    // then
    assert_eq!(new_version, SemanticVersion::new(1, 0, 0, None, None));
}

#[test]
fn should_parse_semantic_version_string_into_semantic_version_instance_with_metadata() {
    // given
    let input = String::from("32.12.4+202105272159");

    // when
    let actual = SemanticVersion::from(input);

    // then
    assert_eq!(
        actual.unwrap(),
        SemanticVersion {
            major: 32,
            minor: 12,
            patch: 4,
            pre_release: None,
            metadata: Some(String::from("202105272159"))
        }
    )
}

#[test]
fn should_parse_semantic_version_string_with_v_as_prefix_into_semantic_version_instance_with_metadata(
) {
    // given
    let input = String::from("v32.12.4+202105272159");

    // when
    let actual = SemanticVersion::from(input);

    // then
    assert_eq!(
        actual.unwrap(),
        SemanticVersion {
            major: 32,
            minor: 12,
            patch: 4,
            pre_release: None,
            metadata: Some(String::from("202105272159"))
        }
    )
}

#[test]
fn should_convert_semver_without_metadata_to_string() {
    // given
    let version = SemanticVersion::new(1, 2, 3, None, None);

    // when
    let actual = version.to_string();

    // then
    assert_eq!(String::from("1.2.3"), actual);
}

#[test]
fn should_convert_semver_with_metadata_to_string() {
    // given
    let version = SemanticVersion::new(1, 2, 3, None, Some(String::from("20240501")));

    // when
    let actual = version.to_string();

    // then
    assert_eq!(String::from("1.2.3+20240501"), actual);
}

#[test]
fn should_mark_same_version_with_different_metadata_as_equal() {
    let first = SemanticVersion::new(1, 2, 3, None, Some(String::from("20240501")));
    let second = SemanticVersion::new(1, 2, 3, None, None);

    assert_eq!(first, second);
}

#[test]
fn should_mark_two_version_with_different_major_as_not_equal() {
    let first = SemanticVersion::new(1, 2, 3, None, None);
    let second = SemanticVersion::new(2, 2, 3, None, None);

    assert_ne!(first, second);
}

#[test]
fn should_mark_two_version_with_different_minor_as_not_equal() {
    let first = SemanticVersion::new(1, 2, 3, None, None);
    let second = SemanticVersion::new(1, 3, 3, None, None);

    assert_ne!(first, second);
}

#[test]
fn should_mark_two_version_with_different_patch_as_not_equal() {
    let first = SemanticVersion::new(1, 2, 3, None, None);
    let second = SemanticVersion::new(1, 2, 4, None, None);

    assert_ne!(first, second);
}

#[test]
fn should_mark_first_version_as_lesser_than_second_patch_change() {
    let first = SemanticVersion::new(1, 2, 3, None, None);
    let second = SemanticVersion::new(1, 2, 4, None, None);

    assert!(first < second)
}

#[test]
fn should_mark_first_version_as_lesser_than_second_minor_change() {
    let first = SemanticVersion::new(1, 2, 3, None, None);
    let second = SemanticVersion::new(1, 3, 3, None, None);

    assert!(first < second)
}

#[test]
fn should_mark_first_version_as_lesser_than_second_major_change() {
    let first = SemanticVersion::new(1, 2, 3, None, None);
    let second = SemanticVersion::new(2, 2, 3, None, None);

    assert!(first < second)
}

#[test]
fn should_mark_first_version_as_greater_than_second_patch_change() {
    let first = SemanticVersion::new(1, 2, 5, None, None);
    let second = SemanticVersion::new(1, 2, 4, None, None);

    assert!(first > second)
}

#[test]
fn should_mark_first_version_as_greater_than_second_minor_change() {
    let first = SemanticVersion::new(1, 3, 4, None, None);
    let second = SemanticVersion::new(1, 2, 4, None, None);

    assert!(first > second)
}

#[test]
fn should_mark_first_version_as_greater_than_second_major_change() {
    let first = SemanticVersion::new(2, 2, 4, None, None);
    let second = SemanticVersion::new(1, 2, 4, None, None);

    assert!(first > second)
}

#[test]
fn should_convert_prerelease_with_alpha_beta_and_version_into_string() {
    let input = PreRelease {
        pre_release_type_chain: vec![Alpha, Beta],
        version: Some(1),
    };

    assert_eq!(input.to_string(), "alpha.beta.1")
}

#[test]
fn should_convert_prerelease_with_alpha_beta_without_version_into_string() {
    let input = PreRelease {
        pre_release_type_chain: vec![Alpha, Beta, RC],
        version: None,
    };

    assert_eq!(input.to_string(), "alpha.beta.rc")
}

#[test]
fn semantic_version_should_consider_alpha_as_lesser_than_beta() {
    assert!(Alpha < Beta)
}

#[test]
fn semantic_version_should_consider_beta_as_lesser_than_rc() {
    assert!(Beta < RC)
}

#[test]
fn semantic_version_should_consider_rc_as_greater_than_alpha() {
    assert!(RC > Alpha)
}

#[test]
fn semantic_version_should_convert_alpha_string_to_alpha_enum() {
    assert_eq!(
        PreReleaseType::from("alpha").unwrap(),
        PreReleaseType::Alpha
    )
}

#[test]
fn semantic_version_should_convert_beta_string_to_beta_enum() {
    assert_eq!(PreReleaseType::from("beta").unwrap(), PreReleaseType::Beta)
}

#[test]
fn semantic_version_should_convert_rc_string_to_rc_enum() {
    assert_eq!(PreReleaseType::from("rc").unwrap(), PreReleaseType::RC)
}

#[test]
fn semantic_version_should_return_none_when_trying_to_convert_unknown_value() {
    assert_eq!(PreReleaseType::from("rcc"), None)
}
