use step_runner::format::{wide_line, wide_message, yaml_message, Format};
use step_runner::result::{has_errors, Step, StepResult, WebHook};
use step_runner::status::{Outcome, Status};

fn step(outcome: Option<Outcome>, do_output: bool) -> Step {
    Step {
        name: "probe".to_string(),
        description: Some("checks a thing".to_string()),
        do_output,
        outcome,
        duration_ms: 42,
    }
}

fn result(name: &str, pass: bool) -> StepResult {
    StepResult {
        name: name.to_string(),
        description: None,
        pass,
        output: String::new(),
        error: if pass { None } else { Some("bad".to_string()) },
        duration: 1,
    }
}

#[test]
fn passed_step_reports_output() {
    let r = StepResult::from(step(Some(Outcome { output: Some("ok".to_string()), error: None }), true));
    assert_eq!(r.name, "probe");
    assert_eq!(r.description, Some("checks a thing".to_string()));
    assert!(r.pass);
    assert_eq!(r.output, "ok");
    assert_eq!(r.error, None);
    assert_eq!(r.duration, 42);
}

#[test]
fn suppressed_output_is_empty() {
    let r = StepResult::from(step(Some(Outcome { output: Some("ok".to_string()), error: None }), false));
    assert!(r.pass);
    assert_eq!(r.output, "");
}

#[test]
fn missing_output_is_empty() {
    let r = StepResult::from(step(Some(Outcome { output: None, error: Some("boom".to_string()) }), true));
    assert!(!r.pass);
    assert_eq!(r.output, "");
    assert_eq!(r.error, Some("boom".to_string()));
}

#[test]
fn unfinished_step_fails() {
    let r = StepResult::from(step(None, true));
    assert!(!r.pass);
    assert_eq!(r.output, "");
    assert_eq!(r.error, Some("Not finished".to_string()));
}

#[test]
fn outcome_of_statuses() {
    assert!(Status::Outstanding.outcome().is_none());
    assert!(Status::InProgress.outcome().is_none());
    let o = Status::Completed(Outcome { output: None, error: None }).outcome().unwrap();
    assert!(o.passed());
}

#[test]
fn dependency_failure_outcome() {
    let o = Outcome::dependency_failure();
    assert_eq!(o.error, Some("Dependency not met".to_string()));
    assert_eq!(o.output, None);
    assert!(!o.passed());
}

#[test]
fn webhook_flags_failures() {
    let all_ok = vec![result("a", true), result("b", true)];
    assert!(!has_errors(&all_ok));
    let hook = WebHook::new("host-1".to_string(), all_ok);
    assert!(!hook.has_errors);
    assert_eq!(hook.hostname, "host-1");
    assert_eq!(hook.tests.len(), 2);
    let mixed = vec![result("a", true), result("b", false)];
    assert!(has_errors(&mixed));
    assert!(WebHook::new("h".to_string(), mixed).has_errors);
    assert!(!has_errors(&vec![]));
}

#[test]
fn format_names_in_any_case() {
    assert_eq!(Format::parse("yaml"), Ok(Format::Yaml));
    assert_eq!(Format::parse("YML"), Ok(Format::Yaml));
    assert_eq!(Format::parse("None"), Ok(Format::Quiet));
    assert_eq!(Format::parse("quiet"), Ok(Format::Quiet));
    assert_eq!(Format::parse("JSON"), Ok(Format::Json));
    assert_eq!(Format::parse("Wide"), Ok(Format::Wide));
    assert_eq!(Format::parse("Bogus"), Err("Bogus".to_string()));
    assert_eq!("WIDE".parse::<Format>(), Ok(Format::Wide));
}

#[test]
fn format_from_lowered_names() {
    assert_eq!(Format::from_lowered(&"yml".to_string()), Some(Format::Yaml));
    assert_eq!(Format::from_lowered(&"none".to_string()), Some(Format::Quiet));
    assert_eq!(Format::from_lowered(&"JSON".to_string()), None);
    assert_eq!(Format::from_lowered(&String::new()), None);
}

#[test]
fn result_record_round_trip() {
    let r = StepResult::from(step(Some(Outcome { output: Some("line".to_string()), error: Some("e".to_string()) }), true));
    let mut record = serde_json::Map::new();
    record.insert("name".to_string(), serde_json::Value::from(r.name.clone()));
    record.insert("pass".to_string(), serde_json::Value::from(r.pass));
    record.insert("output".to_string(), serde_json::Value::from(r.output.clone()));
    record.insert("error".to_string(), serde_json::Value::from(r.error.clone()));
    record.insert("duration".to_string(), serde_json::Value::from(r.duration));
    let text = serde_json::Value::Object(record).to_string();
    let back: serde_json::Value = serde_json::from_str(&text).unwrap();
    assert_eq!(back["name"].as_str(), Some(r.name.as_str()));
    assert_eq!(back["pass"].as_bool(), Some(r.pass));
    assert_eq!(back["output"].as_str(), Some(r.output.as_str()));
    assert_eq!(back["error"].as_str(), r.error.as_deref());
    assert_eq!(back["duration"].as_u64(), Some(r.duration));
}

#[test]
fn yaml_of_a_passed_result() {
    let r = StepResult::from(step(Some(Outcome { output: Some("ok".to_string()), error: None }), true));
    assert_eq!(
        yaml_message(&r),
        "- name: probe\n  description: checks a thing\n  pass: true\n  output: ok\n  duration: 42ms\n"
    );
}

#[test]
fn yaml_of_a_failed_result_without_output() {
    let mut r = result("c", false);
    r.error = Some("boom".to_string());
    r.duration = 1234567;
    assert_eq!(yaml_message(&r), "- name: c\n  pass: false\n  error: boom\n  duration: 1234567ms\n");
    r.duration = 0;
    assert_eq!(yaml_message(&r), "- name: c\n  pass: false\n  error: boom\n  duration: 0ms\n");
}

#[test]
fn yaml_indents_multiline_output() {
    let mut r = result("m", true);
    r.output = "one\ntwo\nthree".to_string();
    assert_eq!(
        yaml_message(&r),
        "- name: m\n  pass: true\n  output: |\n    one\n    two\n    three\n  duration: 1ms\n"
    );
}

#[test]
fn wide_line_from_quoted_parts() {
    let r = result("w", false);
    let line = wide_line(&r, &None, &"\"out\"".to_string(), &Some("\"bad\"".to_string()));
    assert_eq!(line, "name=w description=None pass=false output=\"out\" error=Some(\"bad\") duration=1ms");
}

#[test]
fn wide_message_quotes_and_escapes() {
    let mut r = result("w", true);
    r.description = Some("say \"hi\"".to_string());
    r.output = "a\nb".to_string();
    r.duration = 90;
    assert_eq!(
        wide_message(&r),
        "name=w description=Some(\"say \\\"hi\\\"\") pass=true output=\"a\\nb\" error=None duration=90ms"
    );
}
