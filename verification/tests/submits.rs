use kelvin_submit::submit::{
    submission_request, Client, Effect, Event, Fatal, Level, State, Submission,
    SubmissionRequest, STATUS_OK,
};

fn request() -> SubmissionRequest {
    submission_request(vec![b'P', b'K', 5, 6], 17, "s3cr3t", "https://kelvin.cs.vsb.cz")
}

fn accepted() -> Submission {
    Submission { id: 42, url: "https://x/s/42".to_string(), task_name: "hw1".to_string() }
}

fn sent(no_open: bool) -> Client {
    let (client, _) = Client::new(request(), no_open).step(Event::Start);
    client
}

fn logs(effects: &[Effect], wanted: Level) -> Vec<String> {
    effects
        .iter()
        .filter_map(|effect| match effect {
            Effect::Log { level, text } if *level == wanted => Some(text.clone()),
            _ => None,
        })
        .collect()
}

fn opened(effects: &[Effect]) -> Vec<String> {
    effects
        .iter()
        .filter_map(|effect| match effect {
            Effect::OpenBrowser { url } => Some(url.clone()),
            _ => None,
        })
        .collect()
}

#[test]
fn request_names_the_assignment_and_carries_the_token() {
    let request = request();
    assert_eq!(request.url, "https://kelvin.cs.vsb.cz/api/submits/17");
    assert_eq!(request.authorization, "Bearer s3cr3t");
    assert_eq!(request.part_name, "solution");
    assert_eq!(request.file_name, "submit.zip");
    assert_eq!(request.archive, vec![b'P', b'K', 5, 6]);
}

#[test]
fn request_url_for_the_extremes_of_the_assignment_number() {
    assert_eq!(submission_request(Vec::new(), 0, "", "http://h").url, "http://h/api/submits/0");
    assert_eq!(
        submission_request(Vec::new(), u64::MAX, "", "http://h").url,
        "http://h/api/submits/18446744073709551615"
    );
    assert_eq!(submission_request(Vec::new(), 5, "", "").url, "/api/submits/5");
    assert_eq!(submission_request(Vec::new(), 5, "", "").authorization, "Bearer ");
}

#[test]
fn status_ok_is_200() {
    assert_eq!(STATUS_OK, 200);
}

#[test]
fn start_sends_the_request_once() {
    let client = Client::new(request(), false);
    assert!(matches!(client.current(), State::Idle));
    let (client, effects) = client.step(Event::Start);
    assert!(matches!(client.current(), State::Sent));
    assert_eq!(effects.len(), 1);
    match &effects[0] {
        Effect::Send(sent) => {
            assert_eq!(sent.url, "https://kelvin.cs.vsb.cz/api/submits/17");
            assert_eq!(sent.archive, vec![b'P', b'K', 5, 6]);
        },
        _ => panic!("the first effect is the sending"),
    }
    let (client, effects) = client.step(Event::Start);
    assert!(matches!(client.current(), State::Sent));
    assert!(effects.is_empty());
}

#[test]
fn accepted_submission_is_reported_and_opened() {
    let (client, effects) =
        sent(false).step(Event::Response { status: 200, submission: Some(accepted()) });
    match client.current() {
        State::Success(submission) => {
            assert_eq!(submission.id, 42);
            assert_eq!(submission.task_name, "hw1");
            assert_eq!(submission.url, "https://x/s/42");
        },
        _ => panic!("the run succeeded"),
    }
    assert_eq!(
        logs(&effects, Level::Info),
        vec![
            "Created submit #42 for task hw1".to_string(),
            "You can find the submit at https://x/s/42".to_string(),
        ]
    );
    assert_eq!(opened(&effects), vec!["https://x/s/42".to_string()]);
    assert_eq!(effects.len(), 3);
    assert_eq!(client.exit_code(), 0);
}

#[test]
fn no_open_leaves_the_browser_alone() {
    let (client, effects) =
        sent(true).step(Event::Response { status: 200, submission: Some(accepted()) });
    assert!(matches!(client.current(), State::Success(_)));
    assert!(opened(&effects).is_empty());
    assert_eq!(logs(&effects, Level::Info).len(), 2);
    assert_eq!(effects.len(), 2);
    let (client, effects) = client.step(Event::Opened(false));
    assert!(matches!(client.current(), State::Success(_)));
    assert!(effects.is_empty());
    assert_eq!(client.exit_code(), 0);
}

#[test]
fn refusal_is_logged_with_its_status_and_does_not_fail_the_run() {
    let (client, effects) = sent(false).step(Event::Response { status: 403, submission: None });
    match client.current() {
        State::Rejected { status, body } => {
            assert_eq!(*status, 403);
            assert!(body.is_none());
        },
        _ => panic!("the run was rejected"),
    }
    let errors = logs(&effects, Level::Error);
    assert_eq!(errors.len(), 1);
    assert!(errors[0].contains("403"));
    assert_eq!(errors[0], "The submit was not successful. Status error: 403");
    assert!(matches!(effects[1], Effect::ReadBody));
    assert_eq!(effects.len(), 2);
    assert_eq!(client.exit_code(), 0);

    let (client, effects) = client.step(Event::Body(Some("Forbidden".to_string())));
    match client.current() {
        State::Rejected { status, body } => {
            assert_eq!(*status, 403);
            assert_eq!(body.as_deref(), Some("Forbidden"));
        },
        _ => panic!("the run stays rejected"),
    }
    assert_eq!(logs(&effects, Level::Debug), vec!["Response content: Forbidden".to_string()]);
    assert_eq!(client.exit_code(), 0);
}

#[test]
fn refusal_ignores_a_body_that_happens_to_decode() {
    let (client, effects) =
        sent(false).step(Event::Response { status: 500, submission: Some(accepted()) });
    assert!(matches!(client.current(), State::Rejected { status: 500, body: None }));
    assert!(opened(&effects).is_empty());
    assert!(logs(&effects, Level::Info).is_empty());
}

#[test]
fn every_status_but_ok_is_a_refusal() {
    for status in [0u16, 100, 199, 201, 204, 301, 400, 401, 404, 418, 500, 503, 999, u16::MAX] {
        let (client, effects) = sent(false).step(Event::Response { status, submission: None });
        assert!(
            matches!(client.current(), State::Rejected { status: seen, .. } if *seen == status),
            "status {status}"
        );
        assert!(logs(&effects, Level::Error)[0].contains(&status.to_string()));
    }
}

#[test]
fn unreadable_body_of_a_refusal_fails_the_run() {
    let (client, _) = sent(false).step(Event::Response { status: 502, submission: None });
    let (client, effects) = client.step(Event::Body(None));
    assert!(matches!(client.current(), State::Failed(Fatal::BodyRead)));
    assert!(effects.is_empty());
    assert_eq!(client.exit_code(), 1);
}

#[test]
fn transport_failure_fails_the_run() {
    let (client, effects) = sent(false).step(Event::TransportFailed);
    assert!(matches!(client.current(), State::Failed(Fatal::Transport)));
    assert!(effects.is_empty());
    assert_eq!(client.exit_code(), 1);
}

#[test]
fn malformed_acceptance_fails_the_run() {
    let (client, effects) = sent(false).step(Event::Response { status: 200, submission: None });
    assert!(matches!(client.current(), State::Failed(Fatal::ResponseParsing)));
    assert!(effects.is_empty());
    assert_eq!(client.exit_code(), 1);
}

#[test]
fn browser_failure_fails_the_run_after_the_success() {
    let (client, _) =
        sent(false).step(Event::Response { status: 200, submission: Some(accepted()) });
    let (client, effects) = client.step(Event::Opened(false));
    assert!(matches!(client.current(), State::Failed(Fatal::BrowserOpen)));
    assert!(effects.is_empty());
    assert_eq!(client.exit_code(), 1);
}

#[test]
fn opened_browser_keeps_the_success() {
    let (client, _) =
        sent(false).step(Event::Response { status: 200, submission: Some(accepted()) });
    let (client, effects) = client.step(Event::Opened(true));
    assert!(matches!(client.current(), State::Success(_)));
    assert!(effects.is_empty());
    assert_eq!(client.exit_code(), 0);
}

#[test]
fn events_out_of_turn_change_nothing() {
    let (client, effects) = Client::new(request(), false).step(Event::TransportFailed);
    assert!(matches!(client.current(), State::Idle));
    assert!(effects.is_empty());
    let (client, effects) =
        client.step(Event::Response { status: 200, submission: Some(accepted()) });
    assert!(matches!(client.current(), State::Idle));
    assert!(effects.is_empty());
    let (client, effects) = client.step(Event::Body(Some("x".to_string())));
    assert!(matches!(client.current(), State::Idle));
    assert!(effects.is_empty());
    let (client, effects) = client.step(Event::Start);
    assert!(matches!(client.current(), State::Sent));
    assert_eq!(effects.len(), 1);
}

#[test]
fn a_run_sends_at_most_once_whatever_happens() {
    let events = || {
        vec![
            Event::Start,
            Event::Start,
            Event::Response { status: 503, submission: None },
            Event::Start,
            Event::Body(Some("busy".to_string())),
            Event::Start,
            Event::TransportFailed,
            Event::Response { status: 200, submission: Some(accepted()) },
            Event::Start,
        ]
    };
    let mut client = Client::new(request(), false);
    let mut sends = 0;
    for event in events() {
        let (next, effects) = client.step(event);
        sends += effects.iter().filter(|effect| matches!(effect, Effect::Send(_))).count();
        client = next;
    }
    assert_eq!(sends, 1);
    assert!(matches!(client.current(), State::Rejected { status: 503, .. }));
}

#[test]
fn failed_runs_stay_failed() {
    let (mut client, _) = sent(false).step(Event::TransportFailed);
    for event in [
        Event::Start,
        Event::Response { status: 200, submission: Some(accepted()) },
        Event::Body(None),
        Event::Opened(true),
        Event::TransportFailed,
    ] {
        let (next, effects) = client.step(event);
        assert!(effects.is_empty());
        client = next;
        assert!(matches!(client.current(), State::Failed(Fatal::Transport)));
    }
    assert_eq!(client.exit_code(), 1);
}

#[test]
fn contexts_name_the_step_that_failed() {
    assert_eq!(Fatal::Metadata.context(), "getting cargo metadata");
    assert_eq!(Fatal::Archive.context(), "cannot create ZIP archive");
    assert_eq!(Fatal::Transport.context(), "sending submit to Kelvin");
    assert_eq!(Fatal::BodyRead.context(), "getting content of HTTP response");
    assert_eq!(Fatal::ResponseParsing.context(), "deserializing response");
    assert_eq!(Fatal::BrowserOpen.context(), "opening browser");
}
