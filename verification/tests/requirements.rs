//! Specifications and repository analysis.

use agentharbor::requirements::{
    merge_and_sort_questions, repository_markers, specification_markdown, write_specification,
};
use agentharbor::{
    analyze_repository, AnalysisQuestion, EntityId, FileStep, QuestionPriority,
    RequirementSpecification, StorePath,
};

fn texts(values: &[&str]) -> Vec<String> {
    values.iter().map(|value| value.to_string()).collect()
}

fn complete() -> RequirementSpecification {
    RequirementSpecification {
        goal: " Ship it. \n".to_owned(),
        background: "\tUsers wait.".to_owned(),
        in_scope: texts(&[" the host ", "the core"]),
        acceptance_criteria: texts(&["it runs"]),
        ..RequirementSpecification::default()
    }
}

#[test]
fn a_complete_specification_is_valid() {
    assert!(complete().validate().is_ok());
}

#[test]
fn all_missing_content_is_named_in_order() {
    assert_eq!(
        RequirementSpecification::default().validate().unwrap_err().message(),
        "invalid input: specification is missing required content: goal, background, in_scope, \
         acceptance_criteria"
    );
    let mut specification = complete();
    specification.goal = " \n ".to_owned();
    specification.acceptance_criteria = vec![];
    assert_eq!(
        specification.validate().unwrap_err().message(),
        "invalid input: specification is missing required content: goal, acceptance_criteria"
    );
    let mut specification = complete();
    specification.background = String::new();
    assert_eq!(
        specification.validate().unwrap_err().message(),
        "invalid input: specification is missing required content: background"
    );
}

#[test]
fn the_markdown_document_is_exact() {
    let mut specification = complete();
    specification.risks = texts(&["  delay\n"]);
    let id = EntityId { value: 0x0123_4567_89ab_cdef_0011_2233_4455_6677 };
    assert_eq!(
        specification_markdown(id, 3, &specification),
        "# Requirement Specification\n\n\
         - Requirement: `01234567-89ab-cdef-0011-223344556677`\n\
         - Version: `3`\n\
         - Status: draft\n\n\
         ## Goal\n\nShip it.\n\n\
         ## Background\n\nUsers wait.\n\n\
         ## In Scope\n\n- the host\n- the core\n\n\
         ## Out of Scope\n\n- None.\n\n\
         ## Constraints\n\n- None.\n\n\
         ## Assumptions\n\n- None.\n\n\
         ## User Scenarios\n\n- None.\n\n\
         ## Acceptance Criteria\n\n- it runs\n\n\
         ## Risks\n\n- delay\n\n\
         ## Open Questions\n\n- None.\n\n"
    );
}

#[test]
fn every_list_of_a_specification_has_its_section() {
    let specification = RequirementSpecification {
        goal: "g".to_owned(),
        background: "b".to_owned(),
        in_scope: texts(&["1"]),
        out_of_scope: texts(&["2"]),
        constraints: texts(&["3"]),
        assumptions: texts(&["4"]),
        user_scenarios: texts(&["5"]),
        acceptance_criteria: texts(&["6"]),
        risks: texts(&["7"]),
        open_questions: texts(&["8"]),
    };
    let document = specification_markdown(EntityId { value: 0 }, -2, &specification);
    assert!(document.contains("- Version: `-2`\n"));
    assert!(document.ends_with(
        "## In Scope\n\n- 1\n\n## Out of Scope\n\n- 2\n\n## Constraints\n\n- 3\n\n\
         ## Assumptions\n\n- 4\n\n## User Scenarios\n\n- 5\n\n## Acceptance Criteria\n\n- 6\n\n\
         ## Risks\n\n- 7\n\n## Open Questions\n\n- 8\n\n"
    ));
}

#[test]
fn a_version_is_written_beside_its_location_first() {
    let id = EntityId { value: 0x0123_4567_89ab_cdef_0011_2233_4455_6677 };
    let plan = write_specification(id, 12, "text é");
    let directory = StorePath {
        segments: texts(&[".agentharbor", "specs", "01234567-89ab-cdef-0011-223344556677"]),
    };
    assert_eq!(plan.location, directory.join("v12.md"));
    assert_eq!(
        plan.steps,
        vec![
            FileStep::CreateDirectory { path: directory.duplicate() },
            FileStep::WriteFile {
                path: directory.join("v12.md.tmp"),
                contents: "text é".as_bytes().to_vec(),
            },
            FileStep::RenameFile {
                from: directory.join("v12.md.tmp"),
                to: directory.join("v12.md"),
            },
        ]
    );
}

#[test]
fn versions_have_locations_of_their_own() {
    let id = EntityId { value: 1 };
    let other = EntityId { value: 2 };
    let here = write_specification(id, 1, "a").location;
    assert_ne!(here, write_specification(id, 2, "a").location);
    assert_ne!(here, write_specification(other, 1, "a").location);
    assert_ne!(here, write_specification(id, -1, "a").location);
    assert_eq!(here, write_specification(id, 1, "b").location);
}

fn question(key: &str, priority: QuestionPriority, text: &str) -> AnalysisQuestion {
    AnalysisQuestion {
        key: key.to_owned(),
        question: text.to_owned(),
        priority,
        rationale: String::new(),
    }
}

#[test]
fn questions_are_merged_by_key_and_ordered_by_priority() {
    let mut questions = vec![
        question("d", QuestionPriority::Delivery, "1"),
        question("a", QuestionPriority::Acceptance, "2"),
        question("x", QuestionPriority::Architecture, "3"),
        question("a", QuestionPriority::Architecture, "4"),
        question("y", QuestionPriority::Architecture, "5"),
        question("d", QuestionPriority::Delivery, "6"),
        question("b", QuestionPriority::Acceptance, "7"),
    ];
    merge_and_sort_questions(&mut questions);
    let order: Vec<&str> = questions.iter().map(|q| q.question.as_str()).collect();
    assert_eq!(order, vec!["3", "5", "2", "7", "1"]);
    let merged = questions.clone();
    merge_and_sort_questions(&mut questions);
    assert_eq!(questions, merged);
}

#[test]
fn merging_nothing_gives_nothing() {
    let mut questions = vec![];
    merge_and_sort_questions(&mut questions);
    assert!(questions.is_empty());
}

#[test]
fn what_is_no_directory_is_not_analyzed() {
    assert_eq!(
        analyze_repository(false, &texts(&["Cargo.toml"])).unwrap_err().message(),
        "invalid input: repository path is not a directory"
    );
}

#[test]
fn an_empty_directory_raises_the_intake_questions_alone() {
    let analysis = analyze_repository(true, &vec![]).unwrap();
    assert!(analysis.known_facts.is_empty());
    assert!(analysis.reasonable_inferences.is_empty());
    let keys: Vec<&str> = analysis.questions_for_user.iter().map(|q| q.key.as_str()).collect();
    assert_eq!(keys, vec!["architecture-boundary", "compatibility", "acceptance-evidence", "delivery"]);
    assert_eq!(
        analysis.questions_for_user[1],
        AnalysisQuestion {
            key: "compatibility".to_owned(),
            question:
                "What backward-compatibility, platform, security, or performance constraints apply?"
                    .to_owned(),
            priority: QuestionPriority::Architecture,
            rationale: "These constraints can rule out implementation approaches.".to_owned(),
        }
    );
}

#[test]
fn observations_and_inferences_are_kept_apart() {
    let markers = repository_markers();
    assert_eq!(markers, vec!["Cargo.toml", "package.json", ".github/workflows", "README.md"]);
    let analysis = analyze_repository(true, &texts(&markers)).unwrap();
    assert_eq!(
        analysis.known_facts,
        vec![
            "Cargo.toml is present (Rust project or workspace).",
            "package.json is present (Node.js package or workspace).",
            "GitHub Actions workflow configuration is present.",
            "README.md is present.",
        ]
    );
    assert_eq!(
        analysis.reasonable_inferences,
        vec!["Changes may need validation in both Rust and TypeScript toolchains."]
    );
}

#[test]
fn one_toolchain_alone_infers_nothing() {
    let analysis = analyze_repository(true, &texts(&["README.md", "package.json"])).unwrap();
    assert_eq!(
        analysis.known_facts,
        vec!["package.json is present (Node.js package or workspace).", "README.md is present."]
    );
    assert!(analysis.reasonable_inferences.is_empty());
}
