//! The client side of a submission: the request that carries the archive,
//! and the reading of the service's answer, as a machine that is told what
//! happened and says what to do next.

use vstd::prelude::*;
use vstd::string::*;
use crate::text::{decimal, push_decimal};

verus! {

/// The status with which the service accepts a submission.
pub const STATUS_OK: u16 = 200;

/// What is sent to the service: one POST with a multipart body of one part.
pub struct SubmissionRequest {
    /// The address that the request goes to.
    pub url: String,
    /// The value of the `Authorization` header.
    pub authorization: String,
    /// The name of the part that carries the archive.
    pub part_name: String,
    /// The file name given for that part.
    pub file_name: String,
    /// The archive, which is the part's content.
    pub archive: Vec<u8>,
}

/// The address for submissions to an assignment.
pub open spec fn submit_url(base_url: Seq<char>, assignment_id: nat) -> Seq<char> {
    base_url + "/api/submits/"@ + decimal(assignment_id)
}

/// The `Authorization` header that presents a token.
pub open spec fn bearer(token: Seq<char>) -> Seq<char> {
    "Bearer "@ + token
}

/// The request that submits `archive` to the assignment `assignment_id` of
/// the service at `base_url`, on behalf of the holder of `token`.
pub fn submission_request(archive: Vec<u8>, assignment_id: u64, token: &str, base_url: &str) -> (request:
    SubmissionRequest)
    ensures
        request.url@ == submit_url(base_url@, assignment_id as nat),
        request.authorization@ == bearer(token@),
        request.part_name@ == "solution"@,
        request.file_name@ == "submit.zip"@,
        request.archive == archive,
{
    let mut url = String::from_str(base_url);
    url.append("/api/submits/");
    push_decimal(&mut url, assignment_id);
    let mut authorization = String::from_str("Bearer ");
    authorization.append(token);
    SubmissionRequest {
        url,
        authorization,
        part_name: String::from_str("solution"),
        file_name: String::from_str("submit.zip"),
        archive,
    }
}

/// Whether a response with this status accepts the submission, so that its
/// body is to be decoded rather than read as text.
pub fn is_accepted(status: u16) -> (res: bool)
    ensures
        res == (status == STATUS_OK),
{
    status == STATUS_OK
}

/// What the service says of an accepted submission.
pub struct Submission {
    /// The number of the new submission.
    pub id: u64,
    /// Where the submission can be looked at.
    pub url: String,
    /// The name of the task that the submission belongs to.
    pub task_name: String,
}

/// The steps of a run that end it when they fail.
#[derive(Clone, Copy, Debug, PartialEq, Eq, Structural)]
pub enum Fatal {
    /// The workspace could not be located.
    Metadata,
    /// The archive could not be finished.
    Archive,
    /// No response arrived.
    Transport,
    /// The body of a refusal could not be read.
    BodyRead,
    /// The body of an acceptance did not have the agreed shape.
    ResponseParsing,
    /// The browser could not be opened on the submission. This ends the
    /// run as a failure although the service holds the submission.
    BrowserOpen,
}

/// The words that say which step failed.
pub open spec fn context_text(fatal: Fatal) -> Seq<char> {
    match fatal {
        Fatal::Metadata => "getting cargo metadata"@,
        Fatal::Archive => "cannot create ZIP archive"@,
        Fatal::Transport => "sending submit to Kelvin"@,
        Fatal::BodyRead => "getting content of HTTP response"@,
        Fatal::ResponseParsing => "deserializing response"@,
        Fatal::BrowserOpen => "opening browser"@,
    }
}

impl Fatal {
    /// The words that say which step failed.
    pub fn context(&self) -> (text: String)
        ensures
            text@ == context_text(*self),
    {
        match self {
            Fatal::Metadata => String::from_str("getting cargo metadata"),
            Fatal::Archive => String::from_str("cannot create ZIP archive"),
            Fatal::Transport => String::from_str("sending submit to Kelvin"),
            Fatal::BodyRead => String::from_str("getting content of HTTP response"),
            Fatal::ResponseParsing => String::from_str("deserializing response"),
            Fatal::BrowserOpen => String::from_str("opening browser"),
        }
    }
}

/// Where a run stands.
pub enum State {
    /// Nothing was sent yet.
    Idle,
    /// The request is out and no answer was read yet.
    Sent,
    /// The service accepted the submission.
    Success(Submission),
    /// The service answered with another status than OK. The body is absent
    /// until it has been read.
    Rejected { status: u16, body: Option<String> },
    /// A step failed that ends the run.
    Failed(Fatal),
}

/// What happened outside.
pub enum Event {
    /// The run begins.
    Start,
    /// The request was sent and no response arrived.
    TransportFailed,
    /// A response arrived. For the status OK, `submission` holds what the
    /// body decoded to, and `None` where it did not decode; for any other
    /// status it is not looked at.
    Response { status: u16, submission: Option<Submission> },
    /// The body of a refusal was read as text, or could not be read.
    Body(Option<String>),
    /// The browser was asked to open the submission; `true` where it did.
    Opened(bool),
}

/// How much a log line matters.
#[derive(Clone, Copy, Debug, PartialEq, Eq, Structural)]
pub enum Level {
    Error,
    Info,
    Debug,
}

/// What is to be done outside.
pub enum Effect {
    /// Send the request and report `TransportFailed` or `Response`.
    Send(SubmissionRequest),
    /// Write a line to the log.
    Log { level: Level, text: String },
    /// Read the body of the response as text and report `Body`.
    ReadBody,
    /// Open the address in a browser and report `Opened`.
    OpenBrowser { url: String },
}

/// An effect with its texts as sequences of characters.
pub enum EffectView {
    Send(SubmissionRequest),
    Log { level: Level, text: Seq<char> },
    ReadBody,
    OpenBrowser { url: Seq<char> },
}

impl View for Effect {
    type V = EffectView;

    open spec fn view(&self) -> EffectView {
        match *self {
            Effect::Send(request) => EffectView::Send(request),
            Effect::Log { level, text } => EffectView::Log { level, text: text@ },
            Effect::ReadBody => EffectView::ReadBody,
            Effect::OpenBrowser { url } => EffectView::OpenBrowser { url: url@ },
        }
    }
}

/// The views of a list of effects.
pub open spec fn effect_views(effects: Seq<Effect>) -> Seq<EffectView> {
    Seq::new(effects.len(), |i: int| effects[i]@)
}

/// The line that reports a refusal; it names the status.
pub open spec fn refusal_line(status: u16) -> Seq<char> {
    "The submit was not successful. Status error: "@ + decimal(status as nat)
}

/// The line that shows the body of a refusal.
pub open spec fn body_line(body: Seq<char>) -> Seq<char> {
    "Response content: "@ + body
}

/// The line that reports a new submission and its task.
pub open spec fn created_line(id: u64, task_name: Seq<char>) -> Seq<char> {
    "Created submit #"@ + decimal(id as nat) + " for task "@ + task_name
}

/// The line that says where the submission can be found.
pub open spec fn location_line(url: Seq<char>) -> Seq<char> {
    "You can find the submit at "@ + url
}

/// The state that follows `state` on `event`.
///
/// A run goes from `Idle` to `Sent`, and from there to `Success` (status
/// OK and a body that decoded) or to `Rejected` (any other status), or it
/// fails. An event that the state does not wait for changes nothing.
pub open spec fn next_state(state: State, no_open: bool, event: Event) -> State {
    match (state, event) {
        (State::Idle, Event::Start) => State::Sent,
        (State::Sent, Event::TransportFailed) => State::Failed(Fatal::Transport),
        (State::Sent, Event::Response { status, submission }) => if status == STATUS_OK {
            match submission {
                Some(accepted) => State::Success(accepted),
                None => State::Failed(Fatal::ResponseParsing),
            }
        } else {
            State::Rejected { status, body: None }
        },
        (State::Rejected { status, body: None }, Event::Body(Some(text))) => State::Rejected {
            status,
            body: Some(text),
        },
        (State::Rejected { status, body: None }, Event::Body(None)) => State::Failed(
            Fatal::BodyRead,
        ),
        (State::Success(accepted), Event::Opened(false)) => if no_open {
            state
        } else {
            State::Failed(Fatal::BrowserOpen)
        },
        _ => state,
    }
}

/// What is to be done when `event` arrives in `state`.
pub open spec fn effects_of(
    state: State,
    request: Option<SubmissionRequest>,
    no_open: bool,
    event: Event,
) -> Seq<EffectView> {
    match (state, event) {
        (State::Idle, Event::Start) => match request {
            Some(request) => seq![EffectView::Send(request)],
            None => seq![],
        },
        (State::Sent, Event::Response { status, submission }) => if status == STATUS_OK {
            match submission {
                Some(accepted) => {
                    let lines = seq![
                        EffectView::Log {
                            level: Level::Info,
                            text: created_line(accepted.id, accepted.task_name@),
                        },
                        EffectView::Log { level: Level::Info, text: location_line(accepted.url@) },
                    ];
                    if no_open {
                        lines
                    } else {
                        lines.push(EffectView::OpenBrowser { url: accepted.url@ })
                    }
                },
                None => seq![],
            }
        } else {
            seq![
                EffectView::Log { level: Level::Error, text: refusal_line(status) },
                EffectView::ReadBody,
            ]
        },
        (State::Rejected { status, body: None }, Event::Body(Some(text))) => seq![
            EffectView::Log { level: Level::Debug, text: body_line(text@) },
        ],
        _ => seq![],
    }
}

/// The number of times that a run sends the request, when it starts in
/// `state` and meets `events` in their order.
pub open spec fn attempts(state: State, no_open: bool, events: Seq<Event>) -> nat
    decreases events.len(),
{
    if events.len() == 0 {
        0
    } else {
        let sent: nat = if state is Idle && events[0] is Start {
            1
        } else {
            0
        };
        sent + attempts(next_state(state, no_open, events[0]), no_open, events.drop_first())
    }
}

/// The request is sent on `Start` in `Idle` and at no other time, and no
/// step leads back to `Idle`.
pub proof fn sending_leaves_idle(
    state: State,
    request: Option<SubmissionRequest>,
    no_open: bool,
    event: Event,
)
    ensures
        (exists|i: int|
            0 <= i < effects_of(state, request, no_open, event).len() && effects_of(
                state,
                request,
                no_open,
                event,
            )[i] is Send) ==> state is Idle && event is Start,
        state is Idle && event is Start ==> next_state(state, no_open, event) is Sent,
        !(state is Idle) ==> !(next_state(state, no_open, event) is Idle),
{
}

/// A run makes at most one attempt to send, whatever happens and however
/// often it is told to start; once it has left `Idle` it makes none.
pub proof fn at_most_one_attempt(state: State, no_open: bool, events: Seq<Event>)
    ensures
        attempts(state, no_open, events) <= 1,
        !(state is Idle) ==> attempts(state, no_open, events) == 0,
    decreases events.len(),
{
    if events.len() > 0 {
        let next = next_state(state, no_open, events[0]);
        at_most_one_attempt(next, no_open, events.drop_first());
    }
}

/// From `Sent`, a run reaches `Success` exactly on a response with the
/// status OK whose body decoded, and `Rejected` exactly on a response with
/// any other status.
pub proof fn outcome_of_response(no_open: bool, event: Event)
    ensures
        next_state(State::Sent, no_open, event) is Success <==> (event matches Event::Response {
            status,
            submission,
        } && status == STATUS_OK && submission is Some),
        next_state(State::Sent, no_open, event) is Rejected <==> (event matches Event::Response {
            status,
            ..
        } && status != STATUS_OK),
        event matches Event::Response { status, .. } ==> (status != STATUS_OK ==> next_state(
            State::Sent,
            no_open,
            event,
        ) == (State::Rejected { status, body: None })),
{
}

/// A refusal by the service does not fail the run: `Rejected` is left only
/// when the body of the response cannot be read.
pub proof fn refusal_is_no_failure(status: u16, body: Option<String>, no_open: bool, event: Event)
    ensures
        next_state(State::Rejected { status, body }, no_open, event) is Failed <==> (body is None
            && event == Event::Body(None)),
{
}

/// The client of one run.
pub struct Client {
    state: State,
    request: Option<SubmissionRequest>,
    no_open: bool,
}

impl Client {
    /// The request is held exactly as long as nothing was sent.
    #[verifier::type_invariant]
    spec fn well_formed(self) -> bool {
        self.state is Idle <==> self.request is Some
    }

    /// Where the run stands.
    pub closed spec fn state(&self) -> State {
        self.state
    }

    /// The request, as long as it was not sent.
    pub closed spec fn request(&self) -> Option<SubmissionRequest> {
        self.request
    }

    /// Whether the browser is left alone after a success.
    pub closed spec fn no_open(&self) -> bool {
        self.no_open
    }

    /// A client that has `request` to send and has not sent it.
    pub fn new(request: SubmissionRequest, no_open: bool) -> (client: Client)
        ensures
            client.state() is Idle,
            client.request() == Some(request),
            client.no_open() == no_open,
    {
        Client { state: State::Idle, request: Some(request), no_open }
    }

    /// Where the run stands.
    pub fn current(&self) -> (state: &State)
        ensures
            *state == self.state(),
    {
        &self.state
    }

    /// Takes the run one step further: tells the client what happened and
    /// learns what is to be done.
    ///
    /// The request leaves the client with the one `Send` of a run.
    pub fn step(self, event: Event) -> (res: (Client, Vec<Effect>))
        ensures
            res.0.state() == next_state(self.state(), self.no_open(), event),
            res.0.no_open() == self.no_open(),
            res.0.request() == (if self.state() is Idle && event is Start {
                None
            } else {
                self.request()
            }),
            effect_views(res.1@) == effects_of(
                self.state(),
                self.request(),
                self.no_open(),
                event,
            ),
    {
        proof {
            use_type_invariant(&self);
        }
        let ghost before = self;
        let Client { state, request, no_open } = self;
        let mut effects: Vec<Effect> = Vec::new();
        let next = match state {
            State::Idle => match event {
                Event::Start => {
                    match request {
                        Some(request) => {
                            effects.push(Effect::Send(request));
                        },
                        None => {},
                    }
                    assert(effect_views(effects@) =~= effects_of(
                        before.state,
                        before.request,
                        no_open,
                        event,
                    ));
                    return (Client { state: State::Sent, request: None, no_open }, effects);
                },
                _ => State::Idle,
            },
            State::Sent => match event {
                Event::TransportFailed => State::Failed(Fatal::Transport),
                Event::Response { status, submission } => {
                    if status == STATUS_OK {
                        match submission {
                            Some(accepted) => {
                                let mut created = String::from_str("Created submit #");
                                push_decimal(&mut created, accepted.id);
                                created.append(" for task ");
                                created.append(accepted.task_name.as_str());
                                let mut location = String::from_str("You can find the submit at ");
                                location.append(accepted.url.as_str());
                                effects.push(Effect::Log { level: Level::Info, text: created });
                                effects.push(Effect::Log { level: Level::Info, text: location });
                                if !no_open {
                                    effects.push(Effect::OpenBrowser { url: accepted.url.clone() });
                                }
                                State::Success(accepted)
                            },
                            None => State::Failed(Fatal::ResponseParsing),
                        }
                    } else {
                        let mut refusal = String::from_str(
                            "The submit was not successful. Status error: ",
                        );
                        push_decimal(&mut refusal, status as u64);
                        effects.push(Effect::Log { level: Level::Error, text: refusal });
                        effects.push(Effect::ReadBody);
                        State::Rejected { status, body: None }
                    }
                },
                _ => State::Sent,
            },
            State::Rejected { status, body } => match body {
                None => match event {
                    Event::Body(read) => match read {
                        Some(text) => {
                            let mut line = String::from_str("Response content: ");
                            line.append(text.as_str());
                            effects.push(Effect::Log { level: Level::Debug, text: line });
                            State::Rejected { status, body: Some(text) }
                        },
                        None => State::Failed(Fatal::BodyRead),
                    },
                    _ => State::Rejected { status, body: None },
                },
                Some(text) => State::Rejected { status, body: Some(text) },
            },
            State::Success(accepted) => match event {
                Event::Opened(opened) => {
                    if !opened && !no_open {
                        State::Failed(Fatal::BrowserOpen)
                    } else {
                        State::Success(accepted)
                    }
                },
                _ => State::Success(accepted),
            },
            State::Failed(fatal) => State::Failed(fatal),
        };
        assert(effect_views(effects@) =~= effects_of(
            before.state,
            before.request,
            no_open,
            event,
        ));
        (Client { state: next, request, no_open }, effects)
    }

    /// The process's exit status for the run as it stands: a failure is
    /// reported, a refusal by the service is not.
    pub fn exit_code(&self) -> (code: u8)
        ensures
            code == (if self.state() is Failed { 1u8 } else { 0u8 }),
    {
        match self.state {
            State::Failed(_) => 1,
            _ => 0,
        }
    }
}

} // verus!
