use photo_sorter::Date;
use photo_sorter::MediaFile;
use photo_sorter::Session;
use photo_sorter::StepOutcome;
use photo_sorter::UserCommand;
use photo_sorter::commands::Confirmation;
use photo_sorter::commands::parse_command;
use photo_sorter::commands::parse_confirmation;
use photo_sorter::group::group_by_date;

fn date(year: u16, month: u8, day: u8) -> Date {
    Date { year, month, day }
}

fn media(name: &str, d: Date) -> MediaFile {
    MediaFile { name: String::from(name), date: d }
}

#[test]
fn reserved_letters_parse_as_navigation() {
    assert!(matches!(parse_command("n"), Some(UserCommand::NextImage)));
    assert!(matches!(parse_command("N"), Some(UserCommand::NextImage)));
    assert!(matches!(parse_command(" p\n"), Some(UserCommand::PreviousImage)));
    assert!(matches!(parse_command("P"), Some(UserCommand::PreviousImage)));
    assert!(matches!(parse_command("q"), Some(UserCommand::Quit)));
    assert!(matches!(parse_command("Q \n"), Some(UserCommand::Quit)));
}

#[test]
fn reserved_letters_are_never_labels() {
    for line in ["n", "N", "p", "P", "q", "Q", " n ", "\tq\n"] {
        let cmd = parse_command(line);
        assert!(!matches!(cmd, Some(UserCommand::Label(_))));
        assert!(cmd.is_some());
    }
}

#[test]
fn free_text_parses_as_a_trimmed_label() {
    match parse_command(" Paris \n") {
        Some(UserCommand::Label(l)) => assert_eq!(l.as_str(), "Paris"),
        _ => panic!("expected a label"),
    }
    match parse_command("np") {
        Some(UserCommand::Label(l)) => assert_eq!(l.as_str(), "np"),
        _ => panic!("expected a label"),
    }
}

#[test]
fn blank_lines_are_no_command() {
    assert!(parse_command("").is_none());
    assert!(parse_command("   \n").is_none());
    assert!(parse_command("\t").is_none());
}

#[test]
fn unicode_whitespace_is_trimmed_like_str_trim() {
    match parse_command("\u{A0}Paris\u{2028} \n") {
        Some(UserCommand::Label(l)) => assert_eq!(l.as_str(), "Paris"),
        _ => panic!("expected a label"),
    }
    assert!(parse_command("\u{3000}\u{A0}\u{85}").is_none());
    assert!(matches!(parse_command("\u{2009}q\u{1680}"), Some(UserCommand::Quit)));
}

#[test]
fn confirmation_reads_y_and_n() {
    assert!(matches!(parse_confirmation("y"), Confirmation::Yes));
    assert!(matches!(parse_confirmation(" Y\n"), Confirmation::Yes));
    assert!(matches!(parse_confirmation("n"), Confirmation::No));
    assert!(matches!(parse_confirmation("N "), Confirmation::No));
    assert!(matches!(parse_confirmation("maybe"), Confirmation::Invalid));
    assert!(matches!(parse_confirmation(""), Confirmation::Invalid));
}

#[test]
fn next_image_wraps_around_the_group() {
    let d = date(2024, 5, 5);
    let files = vec![media("a.jpg", d), media("b.jpg", d), media("c.jpg", d)];
    let mut s = Session::new(group_by_date(files));
    assert_eq!(s.image_idx, 0);
    for _ in 0..3 {
        assert!(matches!(s.step(UserCommand::NextImage), StepOutcome::Continue));
    }
    // three NextImage steps in a group of three come back to the start
    assert_eq!(s.image_idx, 0);
    assert!(matches!(s.step(UserCommand::NextImage), StepOutcome::Continue));
    assert_eq!(s.image_idx, 1);
}

#[test]
fn previous_image_wraps_around_the_group() {
    let d = date(2024, 5, 5);
    let files = vec![media("a.jpg", d), media("b.jpg", d), media("c.jpg", d)];
    let mut s = Session::new(group_by_date(files));
    assert!(matches!(s.step(UserCommand::PreviousImage), StepOutcome::Continue));
    assert_eq!(s.image_idx, 2);
    assert!(matches!(s.step(UserCommand::PreviousImage), StepOutcome::Continue));
    assert_eq!(s.image_idx, 1);
    assert!(matches!(s.step(UserCommand::PreviousImage), StepOutcome::Continue));
    // three PreviousImage steps in a group of three come back to the start
    assert_eq!(s.image_idx, 0);
}

#[test]
fn current_image_follows_the_index() {
    let d = date(2024, 5, 5);
    let files = vec![media("a.jpg", d), media("b.jpg", d)];
    let mut s = Session::new(group_by_date(files));
    assert_eq!(s.current_image().as_str(), "a.jpg");
    s.step(UserCommand::NextImage);
    assert_eq!(s.current_image().as_str(), "b.jpg");
    s.step(UserCommand::NextImage);
    assert_eq!(s.current_image().as_str(), "a.jpg");
}

#[test]
fn labelling_both_groups_plans_both_moves() {
    // a.jpg modified 2024-01-01, b.mp4 modified 2024-01-02
    let files = vec![media("a.jpg", date(2024, 1, 1)), media("b.mp4", date(2024, 1, 2))];
    let mut s = Session::new(group_by_date(files));
    assert!(!s.done());
    match s.step(UserCommand::Label(String::from("Paris"))) {
        StepOutcome::Moved(plan) => {
            assert_eq!(plan.dir_name.as_str(), "01-01-2024_Paris");
            assert_eq!(plan.files, vec![String::from("a.jpg")]);
        },
        _ => panic!("expected a planned move"),
    }
    assert!(!s.done());
    match s.step(UserCommand::Label(String::from("Lyon"))) {
        StepOutcome::Moved(plan) => {
            assert_eq!(plan.dir_name.as_str(), "02-01-2024_Lyon");
            assert_eq!(plan.files, vec![String::from("b.mp4")]);
        },
        _ => panic!("expected a planned move"),
    }
    assert!(s.done());
}

#[test]
fn quitting_at_the_first_prompt_changes_nothing() {
    let files = vec![media("a.jpg", date(2024, 1, 1)), media("b.mp4", date(2024, 1, 2))];
    let mut s = Session::new(group_by_date(files));
    let outcome = s.step(UserCommand::Quit);
    // aborted: no move was planned and the session did not advance
    assert!(matches!(outcome, StepOutcome::Aborted));
    assert_eq!(s.group_idx, 0);
    assert_eq!(s.image_idx, 0);
    assert!(!s.done());
}

#[test]
fn label_with_reserved_name_cannot_be_entered() {
    // a city literally named "q" is read as Quit, so no group is labelled
    let files = vec![media("a.jpg", date(2024, 1, 1))];
    let mut s = Session::new(group_by_date(files));
    let cmd = parse_command("q").expect("a command");
    assert!(matches!(cmd, UserCommand::Quit));
    assert!(matches!(s.step(cmd), StepOutcome::Aborted));
}
