use epiq::pipeline::clean_line;
use epiq::pipeline::parse_command;
use epiq::pipeline::plan_pipeline;
use epiq::pipeline::PipelineError;
use epiq::prompt::filter_nonblank;

#[test]
fn tokenizes_shell_words() {
    let argv = parse_command(&String::from("echo hi")).unwrap();
    assert_eq!(argv, vec!["echo", "hi"]);
    let quoted = parse_command(&String::from("grep 'a b' file")).unwrap();
    assert_eq!(quoted, vec!["grep", "a b", "file"]);
    let padded = parse_command(&String::from("  tr a-z A-Z  ")).unwrap();
    assert_eq!(padded, vec!["tr", "a-z", "A-Z"]);
}

#[test]
fn rejects_unparseable_or_empty_commands() {
    match parse_command(&String::from("echo 'unclosed")) {
        Err(PipelineError::InvalidCommand(c)) => assert_eq!(c, "echo 'unclosed"),
        other => panic!("expected an invalid command, got {:?}", other),
    }
    match parse_command(&String::from("   ")) {
        Err(PipelineError::InvalidCommand(c)) => assert_eq!(c, "   "),
        other => panic!("expected an invalid command, got {:?}", other),
    }
}

#[test]
fn plans_head_and_pipe_stages() {
    let cmds = vec![String::from("echo hi"), String::from("tr a-z A-Z")];
    let plan = plan_pipeline(&cmds).unwrap();
    assert_eq!(plan.len(), 2);
    assert_eq!(plan[0].argv, vec!["echo", "hi"]);
    assert!(!plan[0].use_stdin);
    assert_eq!(plan[1].argv, vec!["tr", "a-z", "A-Z"]);
    assert!(plan[1].use_stdin);
}

#[test]
fn single_stage_plan_skips_stdin_wiring() {
    let cmds = vec![String::from("false")];
    let plan = plan_pipeline(&cmds).unwrap();
    assert_eq!(plan.len(), 1);
    assert!(!plan[0].use_stdin);
}

// An empty command list plans nothing and reports the empty pipeline.
#[test]
fn empty_submission_is_rejected() {
    let cmds: Vec<String> = vec![];
    assert_eq!(plan_pipeline(&cmds), Err(PipelineError::EmptyPipeline));
}

#[test]
fn first_bad_command_is_reported() {
    let cmds = vec![
        String::from("echo ok"),
        String::from("oops 'unterminated"),
        String::from("also 'bad"),
    ];
    match plan_pipeline(&cmds) {
        Err(PipelineError::InvalidCommand(c)) => assert_eq!(c, "oops 'unterminated"),
        other => panic!("expected an invalid command, got {:?}", other),
    }
}

#[test]
fn cleans_ansi_escapes_from_output_lines() {
    let colored = String::from("\u{1b}[31mred\u{1b}[0m text");
    assert_eq!(clean_line(&colored), "red text");
    let plain = String::from("plain");
    assert_eq!(clean_line(&plain), "plain");
}

#[test]
fn blank_texts_are_left_out_of_submission() {
    let texts = vec![
        String::from("echo hi"),
        String::from("   "),
        String::from(""),
        String::from("\t\n"),
        String::from("wc -l"),
    ];
    assert_eq!(filter_nonblank(&texts), vec!["echo hi", "wc -l"]);
}

#[test]
fn channel_capacity_bounds_interstage_buffering() {
    assert_eq!(epiq::pipeline::STAGE_CHANNEL_CAPACITY, 100);
}
