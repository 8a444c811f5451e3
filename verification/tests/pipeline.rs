use concrete_driver::driver::pipeline::Stage;

fn stages(outcomes: &[bool], keep_object: bool) -> Vec<Stage> {
    let mut seen = vec![Stage::Parse];
    let mut stage = Stage::Parse;
    for outcome in outcomes {
        stage = stage.next(*outcome, keep_object);
        seen.push(stage);
    }
    seen
}

#[test]
fn a_build_goes_through_its_stages_in_order() {
    assert_eq!(
        stages(&[true, true, true, true, true], false),
        vec![
            Stage::Parse,
            Stage::Lower,
            Stage::EmitObject,
            Stage::Link,
            Stage::DeleteObject,
            Stage::Finished,
        ]
    );
}

#[test]
fn an_object_file_that_is_kept_is_not_deleted() {
    assert_eq!(
        stages(&[true, true, true, true], true),
        vec![Stage::Parse, Stage::Lower, Stage::EmitObject, Stage::Link, Stage::Finished]
    );
}

#[test]
fn a_file_that_does_not_parse_ends_the_process_with_status_one() {
    let stage = Stage::Parse.next(false, false);
    assert_eq!(stage, Stage::Aborted);
    assert!(stage.done());
    assert_eq!(stage.exit_status(), Some(1));
    assert_eq!(stage.next(true, false), Stage::Aborted);
}

#[test]
fn a_program_that_does_not_lower_ends_the_process_with_status_one() {
    assert_eq!(stages(&[true, false, true], true), vec![
        Stage::Parse,
        Stage::Lower,
        Stage::Aborted,
        Stage::Aborted,
    ]);
    assert_eq!(Stage::Lower.next(false, true).exit_status(), Some(1));
}

#[test]
fn any_other_failure_is_handed_up() {
    assert_eq!(Stage::EmitObject.next(false, false), Stage::Failed);
    assert_eq!(Stage::Link.next(false, false), Stage::Failed);
    assert_eq!(Stage::Link.next(false, true), Stage::Failed);
    assert_eq!(Stage::DeleteObject.next(false, false), Stage::Failed);
    assert_eq!(Stage::Failed.exit_status(), None);
    assert!(Stage::Failed.done());
    assert_eq!(Stage::Failed.next(true, true), Stage::Failed);
}

#[test]
fn only_the_last_stages_are_final() {
    for stage in [Stage::Parse, Stage::Lower, Stage::EmitObject, Stage::Link, Stage::DeleteObject] {
        assert!(!stage.done());
        assert_eq!(stage.exit_status(), None);
    }
    assert!(Stage::Finished.done());
    assert_eq!(Stage::Finished.exit_status(), None);
    assert_eq!(Stage::Finished.next(false, false), Stage::Finished);
}
