use epiq::pipeline::clean_line;
use epiq::pipeline::plan_pipeline;
use epiq::pipeline::StagePlan;

// Runs a planned pipeline stage by stage against real OS processes,
// feeding each stage's output lines into the next stage's stdin (via a
// shell printf pipe), and returns the lines the final stage's sink would
// receive.
fn run_plan(plan: Vec<StagePlan>) -> Vec<String> {
    let rt = tokio::runtime::Builder::new_current_thread()
        .enable_all()
        .build()
        .unwrap();
    rt.block_on(async move {
        let mut piped: Vec<String> = Vec::new();
        for stage in plan {
            let quoted_argv: Vec<String> = stage
                .argv
                .iter()
                .map(|a| shlex::try_quote(a).unwrap().into_owned())
                .collect();
            let out = if stage.use_stdin {
                let mut feeder = String::from("printf '%s\\n'");
                for line in &piped {
                    feeder.push(' ');
                    feeder.push_str(&shlex::try_quote(line).unwrap());
                }
                let script = format!("{} | {}", feeder, quoted_argv.join(" "));
                tokio::process::Command::new("sh")
                    .arg("-c")
                    .arg(script)
                    .output()
                    .await
                    .expect("spawn failed")
            } else {
                let script = quoted_argv.join(" ");
                tokio::process::Command::new("sh")
                    .arg("-c")
                    .arg(script)
                    .output()
                    .await
                    .expect("spawn failed")
            };
            piped = String::from_utf8_lossy(&out.stdout)
                .lines()
                .map(|l| clean_line(&l.to_string()))
                .collect();
        }
        piped
    })
}

// Scenario: `echo hi | tr a-z A-Z` submitted; the output sink receives
// "HI".
#[test]
fn two_stage_pipeline_uppercases() {
    let cmds = vec![String::from("echo hi"), String::from("tr a-z A-Z")];
    let plan = plan_pipeline(&cmds).unwrap();
    let lines = run_plan(plan);
    assert_eq!(lines, vec!["HI"]);
}

// Scenario: `false` submitted after aborting a previous running pipeline;
// the submission succeeds, no output line is produced, and nothing
// crashes.
#[test]
fn resubmission_after_abort_runs_cleanly() {
    let rt = tokio::runtime::Builder::new_multi_thread()
        .worker_threads(2)
        .enable_all()
        .build()
        .unwrap();
    // a long-running pipeline stands in for the live one
    let running = rt.spawn(async {
        let _ = tokio::process::Command::new("sleep").arg("30").output().await;
    });
    // abort it, immediately and non-gracefully, then submit the new one
    running.abort();

    let cmds = vec![String::from("false")];
    let plan = plan_pipeline(&cmds).expect("submission should succeed");
    let lines = run_plan(plan);
    assert_eq!(lines, Vec::<String>::new());
}
