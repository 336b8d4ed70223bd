//! What the two launching commands decide: which parameters a command line
//! and the text on standard input give, whether they may be sent, where the
//! request goes, and what the answer means. Reading the input and sending the
//! request are left to the caller.

use vstd::prelude::*;
use vstd::string::StringExecFns;

use crate::error::texts;
use crate::error::Error;
use crate::json::object_get;
use crate::json::object_insert;
use crate::json::object_new;
use crate::json::parse_json5;
use crate::json::value_as_text;
use crate::json::value_from_object;
use crate::json::value_model;
use crate::json::Entries;
use crate::json::Json;
use crate::moment::is_moment_format;
use crate::moment::moment_shape;
use crate::moment::parse;
use crate::moment::read_moment;
use crate::params::read_tokens;
use crate::params::tokens_of;
use crate::params::Params;
use crate::schema::conforms;
use crate::schema::violations;
use crate::schema::Profile;
use crate::text::all_digits;
use crate::text::digits_value;
use crate::text::parse_digits;

verus! {

/// What the JSON reader made of a text: the value, or its complaint.
pub type Reading = Result<Json, Seq<char>>;

/// Parameters that were gathered, or the message that says why none were.
pub type Gathering = Result<Entries, Seq<char>>;

/// What the JSON reader handed back, as contracts see it.
pub open spec fn reading_of(outcome: Result<serde_json::Value, String>) -> Reading {
    match outcome {
        Ok(value) => Ok(value_model(value)),
        Err(complaint) => Err(complaint@),
    }
}

/// What a reading gives as parameters: the entries of the object that was
/// read; a message where something else was read, or nothing.
pub open spec fn reading_entries(reading: Reading) -> Gathering {
    match reading {
        Ok(Json::Object(entries)) => Ok(entries),
        Ok(_) => Err("expected JSON object"@),
        Err(complaint) => Err("invalid JSON: "@ + complaint),
    }
}

/// What the tokens of a command line make of what a text gave: nothing where
/// the text gave nothing; else they add their entries and override the text's
/// where both have a key.
pub open spec fn with_tokens(base: Gathering, tokens: Seq<Seq<char>>) -> Gathering {
    match base {
        Err(reason) => Err(reason),
        Ok(entries) => if tokens.len() == 0 {
            Ok(entries)
        } else {
            match read_tokens(tokens, Map::empty(), false) {
                Err(reason) => Err(reason),
                Ok(overlay) => Ok(entries.union_prefer_right(overlay)),
            }
        },
    }
}

/// The parameters of an invocation, given what the text on standard input
/// gave, where one was read. With a text, they are what the tokens make of
/// it. Without, they are those of the tokens, of which there must be some.
pub open spec fn gathered(tokens: Seq<Seq<char>>, input: Option<Gathering>) -> Gathering {
    match input {
        Some(base) => with_tokens(base, tokens),
        None => if tokens.len() == 0 {
            Err("no parameters provided"@)
        } else {
            read_tokens(tokens, Map::empty(), false)
        },
    }
}

/// Whether a result is the gathering that was expected: the parameters with
/// these entries, or the error with this message.
pub open spec fn answers(r: Result<Params, Error>, expected: Gathering) -> bool {
    match expected {
        Ok(entries) => r matches Ok(params) && params@ == entries,
        Err(reason) => r matches Err(Error::InvalidArgs(text)) && text@ == reason,
    }
}

/// What holds of a gathering whose text went to the JSON reader, whatever the
/// reader made of it. The result is what the tokens make of some reading. So
/// a failure says that the text is no JSON, or no object, or which token is
/// out of place; and a success has every key of the tokens with the value
/// that the tokens give it.
pub open spec fn gathered_from_json(r: Result<Params, Error>, tokens: Seq<Seq<char>>) -> bool {
    &&& exists|reading: Reading| #[trigger]
        answers(r, with_tokens(reading_entries(reading), tokens))
    &&& r matches Err(e) ==> e matches Error::InvalidArgs(text) && ("invalid JSON: "@.is_prefix_of(
        text@,
    ) || text@ == "expected JSON object"@ || (tokens.len() > 0 && read_tokens(
        tokens,
        Map::empty(),
        false,
    ) == Err::<Entries, Seq<char>>(text@)))
    &&& r matches Ok(params) ==> (tokens.len() > 0 ==> (read_tokens(tokens, Map::empty(), false)
        matches Ok(overlay) && forall|key: Seq<char>| #[trigger]
        overlay.dom().contains(key) ==> params@.dom().contains(key) && params@[key]
            == overlay[key]))
}

/// The path that a run is launched at.
pub open spec fn run_path(webhook: Seq<char>) -> Seq<char> {
    "/launch/"@ + webhook
}

/// Whether a status reports success.
pub open spec fn is_success(status: u16) -> bool {
    200 <= status && status < 300
}

/// What the tokens make of some reading is a gathering from JSON.
proof fn lemma_gathered_from_json(r: Result<Params, Error>, tokens: Seq<Seq<char>>, reading: Reading)
    requires
        answers(r, with_tokens(reading_entries(reading), tokens)),
    ensures
        gathered_from_json(r, tokens),
{
    if let Err(complaint) = reading {
        assert(("invalid JSON: "@ + complaint).subrange(0, "invalid JSON: "@.len() as int)
            =~= "invalid JSON: "@);
    }
}

/// Takes the parameters from what the JSON reader made of a text: from the
/// object that it must have read.
pub fn params_from_reading(outcome: Result<serde_json::Value, String>) -> (r: Result<Params, Error>)
    ensures
        answers(r, reading_entries(reading_of(outcome))),
{
    match outcome {
        Ok(value) => Params::from_json(&value),
        Err(complaint) => Err(
            Error::InvalidArgs(String::from_str("invalid JSON: ").concat(complaint.as_str())),
        ),
    }
}

/// Lets the tokens of a command line add to what a text gave, and override it
/// where both have a key. Where the text gave nothing, its error stays.
pub fn overlay_args(base: Result<Params, Error>, args: &[&str]) -> (r: Result<Params, Error>)
    ensures
        base matches Err(e) ==> r matches Err(f) && f == e,
        base matches Ok(params) ==> answers(r, with_tokens(Ok(params@), tokens_of(args@))),
{
    let mut params = match base {
        Ok(params) => params,
        Err(e) => return Err(e),
    };
    if args.len() > 0 {
        let overlay = match Params::from_args(args) {
            Ok(overlay) => overlay,
            Err(e) => return Err(e),
        };
        params.merge(overlay);
    }
    Ok(params)
}

/// Reads a text as JSON, with comments and trailing commas tolerated, and
/// takes the parameters from the object that it must be. The text goes to the
/// reader as it is.
pub fn params_from_json_text(input: &str) -> (r: Result<Params, Error>)
    ensures
        gathered_from_json(r, Seq::empty()),
{
    let outcome = parse_json5(input);
    let ghost reading = reading_of(outcome);
    let r = params_from_reading(outcome);
    proof {
        lemma_gathered_from_json(r, Seq::empty(), reading);
    }
    r
}

/// Takes the parameters from a text: from the `Moment.from` literal where it
/// is supported and the text has its shape, else from the JSON object that the
/// text is read as.
pub fn params_from_text(input: &str, support_moment: bool) -> (r: Result<Params, Error>)
    ensures
        support_moment && moment_shape(input@) ==> answers(r, read_moment(input@)),
        !(support_moment && moment_shape(input@)) ==> gathered_from_json(r, Seq::empty()),
{
    if support_moment && is_moment_format(input) {
        parse(input)
    } else {
        params_from_json_text(input)
    }
}

/// Gathers the parameters of an invocation from the tokens of its command line
/// and from the text on standard input, where it was asked to read one.
///
/// Without a text, and with a text that is read as a `Moment.from` literal,
/// the result is fixed by the arguments. Any other text goes to the JSON
/// reader as it is, and the result is what the tokens make of the reading.
pub fn get_params(args: &[&str], stdin: Option<&str>, support_moment: bool) -> (r: Result<
    Params,
    Error,
>)
    ensures
        stdin is None ==> answers(r, gathered(tokens_of(args@), None)),
        stdin matches Some(text) ==> (support_moment && moment_shape(text@) ==> answers(
            r,
            gathered(tokens_of(args@), Some(read_moment(text@))),
        )),
        stdin matches Some(text) ==> (!(support_moment && moment_shape(text@))
            ==> gathered_from_json(r, tokens_of(args@))),
{
    match stdin {
        Some(text) => {
            let base = params_from_text(text, support_moment);
            let ghost before = base;
            let r = overlay_args(base, args);
            proof {
                if !(support_moment && moment_shape(text@)) {
                    let reading = choose|reading: Reading| #[trigger]
                        answers(before, with_tokens(reading_entries(reading), Seq::empty()));
                    lemma_gathered_from_json(r, tokens_of(args@), reading);
                }
            }
            r
        },
        None => {
            if args.len() == 0 {
                Err(Error::InvalidArgs(String::from_str("no parameters provided")))
            } else {
                Params::from_args(args)
            }
        },
    }
}

/// A launch that may be requested: the path to post to, and the parameters
/// to send.
#[derive(Debug)]
pub struct Launch {
    pub path: String,
    pub params: Params,
}

/// Whether an error lists the violations of a profile by entries, the keys
/// taken in some order.
pub open spec fn lists_violations(e: Error, profile: Profile, entries: Entries) -> bool {
    e matches Error::ValidationFailed(list) && list@.len() > 0 && exists|keys: Seq<Seq<char>>|
        keys.to_set() == entries.dom() && #[trigger] violations(profile, entries, keys) == texts(
            list@,
        )
}

/// What a launching command comes to, given what was gathered: the launch,
/// where parameters were gathered and conform to the profile.
pub open spec fn plan_holds(
    r: Result<Launch, Error>,
    expected: Gathering,
    profile: Profile,
    path: Seq<char>,
) -> bool {
    match expected {
        Err(reason) => r matches Err(Error::InvalidArgs(text)) && text@ == reason,
        Ok(entries) => if conforms(profile, entries) {
            r matches Ok(launch) && launch.path@ == path && launch.params@ == entries
        } else {
            r matches Err(e) && lists_violations(e, profile, entries)
        },
    }
}

/// What holds of a plan whose text went to the JSON reader, whatever the
/// reader made of it: the plan is the one for what the tokens make of some
/// reading.
pub open spec fn planned_from_json(
    r: Result<Launch, Error>,
    tokens: Seq<Seq<char>>,
    profile: Profile,
    path: Seq<char>,
) -> bool {
    exists|reading: Reading| #[trigger]
        plan_holds(r, with_tokens(reading_entries(reading), tokens), profile, path)
}

/// Checks gathered parameters against a profile and, where they conform, plans
/// the launch at `path`. An error of the gathering stays.
pub fn plan(gathering: Result<Params, Error>, profile: Profile, path: String) -> (r: Result<
    Launch,
    Error,
>)
    ensures
        gathering matches Err(e) ==> r matches Err(f) && f == e,
        gathering matches Ok(params) ==> plan_holds(r, Ok(params@), profile, path@),
        r matches Ok(launch) ==> launch.path@ == path@ && conforms(profile, launch.params@),
{
    let params = match gathering {
        Ok(params) => params,
        Err(e) => return Err(e),
    };
    let checked = match profile {
        Profile::TestParams => params.validate_test_params(),
        Profile::DebuggingParams => params.validate_debugging_params(),
    };
    match checked {
        Ok(()) => Ok(Launch { path, params }),
        Err(e) => Err(e),
    }
}

/// Plans a launch from a gathering, and says what the plan is for whatever the
/// gathering answers.
fn plan_gathered(
    gathering: Result<Params, Error>,
    Ghost(tokens): Ghost<Seq<Seq<char>>>,
    profile: Profile,
    path: String,
) -> (r: Result<Launch, Error>)
    ensures
        forall|expected: Gathering| #[trigger]
            answers(gathering, expected) ==> plan_holds(r, expected, profile, path@),
        gathered_from_json(gathering, tokens) ==> planned_from_json(r, tokens, profile, path@),
        r matches Ok(launch) ==> launch.path@ == path@ && conforms(profile, launch.params@),
{
    let r = plan(gathering, profile, path);
    proof {
        if gathered_from_json(gathering, tokens) {
            let reading = choose|reading: Reading| #[trigger]
                answers(gathering, with_tokens(reading_entries(reading), tokens));
            assert(plan_holds(r, with_tokens(reading_entries(reading), tokens), profile, path@));
        }
    }
    r
}

/// Plans a test run: gathers the parameters, which may not come from a
/// `Moment.from` literal, checks them against the profile for test runs, and
/// gives the path of the webhook to post them to.
///
/// Without a text the plan is fixed by the arguments. A text goes to the JSON
/// reader as it is, and the plan is the one for what the tokens make of the
/// reading.
pub fn plan_run(webhook: &str, args: &[&str], stdin: Option<&str>) -> (r: Result<Launch, Error>)
    ensures
        stdin is None ==> plan_holds(
            r,
            gathered(tokens_of(args@), None),
            Profile::TestParams,
            run_path(webhook@),
        ),
        stdin is Some ==> planned_from_json(
            r,
            tokens_of(args@),
            Profile::TestParams,
            run_path(webhook@),
        ),
        r matches Ok(launch) ==> launch.path@ == run_path(webhook@) && conforms(
            Profile::TestParams,
            launch.params@,
        ),
        r matches Err(e) ==> e is InvalidArgs || e is ValidationFailed,
{
    plan_gathered(
        get_params(args, stdin, false),
        Ghost(tokens_of(args@)),
        Profile::TestParams,
        String::from_str("/launch/").concat(webhook),
    )
}

/// Plans a debugging session: gathers the parameters, checks them against the
/// profile for debugging sessions, and gives the path to post them to.
///
/// Without a text, and with a text that is read as a `Moment.from` literal,
/// the plan is fixed by the arguments. Any other text goes to the JSON reader
/// as it is, and the plan is the one for what the tokens make of the reading.
pub fn plan_debug(args: &[&str], stdin: Option<&str>) -> (r: Result<Launch, Error>)
    ensures
        stdin is None ==> plan_holds(
            r,
            gathered(tokens_of(args@), None),
            Profile::DebuggingParams,
            "/launch/debugging"@,
        ),
        stdin matches Some(text) ==> (moment_shape(text@) ==> plan_holds(
            r,
            gathered(tokens_of(args@), Some(read_moment(text@))),
            Profile::DebuggingParams,
            "/launch/debugging"@,
        )),
        stdin matches Some(text) ==> (!moment_shape(text@) ==> planned_from_json(
            r,
            tokens_of(args@),
            Profile::DebuggingParams,
            "/launch/debugging"@,
        )),
        r matches Ok(launch) ==> launch.path@ == "/launch/debugging"@ && conforms(
            Profile::DebuggingParams,
            launch.params@,
        ),
        r matches Err(e) ==> e is InvalidArgs || e is ValidationFailed,
{
    plan_gathered(
        get_params(args, stdin, true),
        Ghost(tokens_of(args@)),
        Profile::DebuggingParams,
        String::from_str("/launch/debugging"),
    )
}

/// The body of the request: an object whose `params` are the parameters, none
/// of them masked.
pub fn request_body(params: &Params) -> (body: serde_json::Value)
    ensures
        value_model(body) == Json::Object(Entries::empty().insert("params"@, Json::Object(params@))),
{
    let mut object = object_new();
    object_insert(&mut object, String::from_str("params"), params.to_value());
    value_from_object(object)
}

/// What the answer to a launch means: its body where the status reports
/// success, else an error with the status and the body.
pub fn conclude(status: u16, body: String) -> (r: Result<String, Error>)
    ensures
        is_success(status) ==> r == Ok::<String, Error>(body),
        !is_success(status) ==> r == Err::<String, Error>(Error::Api { status, message: body }),
{
    if 200 <= status && status < 300 {
        Ok(body)
    } else {
        Err(Error::Api { status, message: body })
    }
}

/// How many minutes after the end of a run, or after the request for a
/// debugging session, the mail that reports it can be expected.
pub const REPORT_MARGIN_MINUTES: u64 = 10;

/// The largest duration, in minutes, that is taken into account.
pub const LONGEST_DURATION_MINUTES: u64 = 0x7fff_ffff_ffff_ffff;

/// The minutes that the parameters ask a run to last: the number under
/// `antithesis.duration`, and zero where there is none that can be read.
pub open spec fn duration_minutes(entries: Entries) -> nat {
    let key = "antithesis.duration"@;
    if entries.dom().contains(key) && entries[key] is Text && all_digits(entries[key]->Text_0)
        && digits_value(entries[key]->Text_0) <= LONGEST_DURATION_MINUTES {
        digits_value(entries[key]->Text_0)
    } else {
        0
    }
}

/// In how many minutes the mail that reports a run can be expected: the
/// minutes that the run lasts and the margin.
pub fn report_delay_minutes(params: &Params) -> (minutes: u64)
    ensures
        minutes == duration_minutes(params@) + REPORT_MARGIN_MINUTES,
{
    let duration = match object_get(params.as_map(), "antithesis.duration") {
        Some(value) => match value_as_text(value) {
            Some(text) => match parse_digits(text, LONGEST_DURATION_MINUTES) {
                Some(minutes) => minutes,
                None => 0,
            },
            None => 0,
        },
        None => 0,
    };
    duration + REPORT_MARGIN_MINUTES
}

} // verus!
