use vcs_flow_commit::prompt::{ask, confirm, confirm_no, prompt_abort_or_continue};

#[test]
fn agreeing_is_the_default_of_a_plain_question() {
    for line in ["\n", "  \n", "y\n", "Y\r\n"] {
        assert!(confirm(Some(line)), "{line:?}");
    }
    for line in ["n\n", "no\n", "x\n"] {
        assert!(!confirm(Some(line)), "{line:?}");
    }
}

#[test]
fn declining_is_the_default_of_a_grave_question() {
    for line in ["y\n", "YES\n", " yes \n"] {
        assert!(confirm_no(Some(line)), "{line:?}");
    }
    for line in ["\n", "n\n", "yep\n"] {
        assert!(!confirm_no(Some(line)), "{line:?}");
    }
}

#[test]
fn the_end_of_input_agrees_to_nothing() {
    assert!(!confirm(None));
    assert!(!confirm_no(None));
    assert!(prompt_abort_or_continue(None));
}

#[test]
fn only_an_a_aborts() {
    assert!(prompt_abort_or_continue(Some("A\n")));
    assert!(!prompt_abort_or_continue(Some("\n")));
    assert!(!prompt_abort_or_continue(Some("c\n")));
}

#[test]
fn questions_end_in_their_hint() {
    assert_eq!(ask("Push?", "[Y/n]"), "Push? [Y/n] ");
}
