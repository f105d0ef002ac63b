//! Running Python for the model: how requests and replies are framed on the
//! wire, how the reply of an interpreter is taken apart, and how the broker
//! lets executions onto its ports.

use crate::text::{
    chars_of, decimal, decimal_text, lines, lines_of, parse_count, parse_count_text, same_text,
    starts_with, string_of, text_views, trim, trim_bounds, trim_text, vec_matches_at,
};
use vstd::prelude::*;
use vstd::utf8::{decode_utf8, encode_utf8, valid_utf8};

verus! {

/// The byte that ends a frame. It occurs in no text, since no UTF-8
/// encoding holds it.
pub const FRAME_END: u8 = 255;

/// The bytes that carry `message` on the wire: its UTF-8 encoding, then the
/// byte that ends the frame.
pub fn frame_message(message: &str) -> (r: Vec<u8>)
    ensures
        r@ == encode_utf8(message@).push(FRAME_END),
{
    let mut bytes = message.as_bytes_vec();
    bytes.push(FRAME_END);
    bytes
}

/// The text that `bytes` encode, by `String::from_utf8`: `None` where they
/// are no valid UTF-8.
#[verifier::external_body]
fn text_of_bytes(bytes: Vec<u8>) -> (r: Option<String>)
    ensures
        match r {
            Some(text) => valid_utf8(bytes@) && text@ == decode_utf8(bytes@),
            None => !valid_utf8(bytes@),
        },
{
    match String::from_utf8(bytes) {
        Ok(text) => Some(text),
        Err(_) => None,
    }
}

/// The text of a frame, or `None` where its bytes are no valid UTF-8.
pub fn decode_frame(bytes: Vec<u8>) -> (r: Option<String>)
    ensures
        match r {
            Some(text) => valid_utf8(bytes@) && text@ == decode_utf8(bytes@),
            None => !valid_utf8(bytes@),
        },
{
    text_of_bytes(bytes)
}

/// The index of the first byte of `bytes` that ends a frame, or their number.
pub open spec fn frame_end_index(bytes: Seq<u8>) -> int
    decreases bytes.len(),
{
    if bytes.len() == 0 || bytes[0] == FRAME_END {
        0
    } else {
        1 + frame_end_index(bytes.drop_first())
    }
}

proof fn lemma_frame_end_index(bytes: Seq<u8>, k: int)
    requires
        0 <= k <= bytes.len(),
        forall|i: int| 0 <= i < k ==> bytes[i] != FRAME_END,
        k < bytes.len() ==> bytes[k] == FRAME_END,
    ensures
        frame_end_index(bytes) == k,
    decreases k,
{
    if k > 0 {
        lemma_frame_end_index(bytes.drop_first(), k - 1);
    }
}

/// Collects the bytes of a frame as they arrive in chunks.
pub struct FrameReader {
    bytes: Vec<u8>,
}

impl View for FrameReader {
    type V = Seq<u8>;

    closed spec fn view(&self) -> Seq<u8> {
        self.bytes@
    }
}

impl FrameReader {
    /// A reader that has seen no byte yet.
    pub fn new() -> (r: FrameReader)
        ensures
            r@ == Seq::<u8>::empty(),
    {
        FrameReader { bytes: Vec::new() }
    }

    /// Takes in the next chunk. Where the chunk holds the end of the frame,
    /// hands out the frame, which is what arrived before that byte, and
    /// starts anew; what the chunk holds after that byte is dropped.
    pub fn accept(&mut self, chunk: &Vec<u8>) -> (r: Option<Vec<u8>>)
        ensures
            match r {
                Some(frame) => {
                    &&& frame_end_index(chunk@) < chunk@.len()
                    &&& frame@ == old(self)@ + chunk@.take(frame_end_index(chunk@))
                    &&& final(self)@ == Seq::<u8>::empty()
                },
                None => {
                    &&& frame_end_index(chunk@) == chunk@.len()
                    &&& final(self)@ == old(self)@ + chunk@
                },
            },
    {
        let mut i: usize = 0;
        while i < chunk.len() && chunk[i] != FRAME_END
            invariant
                i <= chunk.len(),
                self@ == old(self)@ + chunk@.take(i as int),
                forall|j: int| 0 <= j < i ==> chunk@[j] != FRAME_END,
            decreases chunk.len() - i,
        {
            self.bytes.push(chunk[i]);
            proof {
                assert(chunk@.take(i + 1) =~= chunk@.take(i as int).push(chunk@[i as int]));
                assert(self.bytes@ =~= old(self)@ + chunk@.take(i + 1));
            }
            i += 1;
        }
        proof {
            lemma_frame_end_index(chunk@, i as int);
            assert(chunk@.take(chunk@.len() as int) =~= chunk@);
        }
        if i < chunk.len() {
            let mut frame: Vec<u8> = Vec::new();
            std::mem::swap(&mut frame, &mut self.bytes);
            Some(frame)
        } else {
            None
        }
    }
}

/// What of `chunk` is passed on of a reply that ends with its frame: the
/// bytes before the first byte that ends a frame, and whether the chunk
/// holds such a byte.
pub fn split_at_frame_end(chunk: &Vec<u8>) -> (r: (Vec<u8>, bool))
    ensures
        r.0@ == chunk@.take(frame_end_index(chunk@)),
        r.1 == (frame_end_index(chunk@) < chunk@.len()),
{
    let mut reader = FrameReader::new();
    match reader.accept(chunk) {
        Some(frame) => {
            proof {
                assert(frame@ =~= chunk@.take(frame_end_index(chunk@)));
            }
            (frame, true)
        },
        None => {
            proof {
                assert(reader@ =~= chunk@);
                assert(chunk@.take(chunk@.len() as int) =~= chunk@);
            }
            (reader.bytes, false)
        },
    }
}

/// The port that an executor listens at inside its container.
pub const EXECUTOR_PORT: u16 = 4096;

/// How long the broker tries to reach an executor, in milliseconds.
pub const CONNECT_TIMEOUT_MS: u64 = 5000;

/// How long an execution may take from its start, in milliseconds.
pub const EXECUTION_BUDGET_MS: u64 = 15000;

/// The image that a container of an executor is made from.
pub open spec fn executor_image() -> Seq<char> {
    "proxima_python_executor:any"@
}

/// How the port `port` of this machine is bound to the one that the
/// executor listens at in its container.
pub open spec fn port_binding(port: u16) -> Seq<char> {
    "127.0.0.1:"@ + decimal(port as nat) + ":4096/tcp"@
}

/// What the container runtime is told to start an executor that is reached
/// at `port`.
pub open spec fn container_arguments_of(port: u16) -> Seq<Seq<char>> {
    seq!["run"@, "-d"@, "-p"@, port_binding(port), executor_image()]
}

/// What the container runtime is told to start an executor that is reached
/// at `port`: to run the image of the executor in the background, with
/// `port` of this machine bound to the one that the executor listens at.
pub fn container_arguments(port: u16) -> (r: Vec<String>)
    ensures
        text_views(r@) == container_arguments_of(port),
{
    let binding = "127.0.0.1:".to_string().concat(decimal_text(port as u64).as_str()).concat(
        ":4096/tcp",
    );
    let mut r: Vec<String> = Vec::new();
    r.push("run".to_string());
    r.push("-d".to_string());
    r.push("-p".to_string());
    r.push(binding);
    r.push("proxima_python_executor:any".to_string());
    proof {
        assert(text_views(r@) =~= container_arguments_of(port));
    }
    r
}

/// What the broker is started with.
#[derive(Clone, Copy, PartialEq, Eq, Structural, Debug)]
pub struct BrokerSettings {
    /// The port that the broker listens at.
    pub listen_port: u16,
    /// The first of the ports that executors are reached at.
    pub start_port: u16,
    /// How many executions may be under way at once.
    pub max_in_flight: usize,
}

/// Which argument of the broker is no number of its kind.
#[derive(Clone, Copy, PartialEq, Eq, Structural, Debug)]
pub enum BrokerArgumentError {
    ListenPort,
    StartPort,
    MaxInFlight,
}

/// The port that the broker listens at where nothing else is said.
pub const BROKER_PORT: u16 = 4096;

/// What the broker is started with where its arguments say nothing else.
pub open spec fn default_broker_settings() -> BrokerSettings {
    BrokerSettings { listen_port: BROKER_PORT, start_port: 4100, max_in_flight: 4 }
}

/// The port that `text` names: a count that is the number of a port.
pub open spec fn port_number(text: Seq<char>) -> Option<u16> {
    match parse_count(text) {
        Some(n) => if n <= 65535 {
            Some(n as u16)
        } else {
            None
        },
        None => None,
    }
}

/// What the arguments `args` start the broker with: three arguments are
/// the port to listen at, the first of the executors' ports and the number of
/// executions at once, and the first of them that is no such number is at
/// fault; any other number of arguments leaves everything as it is by
/// default.
pub open spec fn broker_settings_of(args: Seq<Seq<char>>) -> Result<
    BrokerSettings,
    BrokerArgumentError,
> {
    if args.len() != 3 {
        Ok(default_broker_settings())
    } else if port_number(args[0]) is None {
        Err(BrokerArgumentError::ListenPort)
    } else if port_number(args[1]) is None {
        Err(BrokerArgumentError::StartPort)
    } else if parse_count(args[2]) is None {
        Err(BrokerArgumentError::MaxInFlight)
    } else {
        Ok(
            BrokerSettings {
                listen_port: port_number(args[0])->0,
                start_port: port_number(args[1])->0,
                max_in_flight: parse_count(args[2])->0,
            },
        )
    }
}

/// Reads `text` as the number of a port.
pub fn parse_port_number(text: &str) -> (r: Option<u16>)
    ensures
        r == port_number(text@),
{
    match parse_count_text(text) {
        Some(n) => if n <= 65535 {
            Some(n as u16)
        } else {
            None
        },
        None => None,
    }
}

impl BrokerSettings {
    /// What the arguments `args`, those after the name of the program,
    /// start the broker with.
    pub fn from_arguments(args: &Vec<String>) -> (r: Result<BrokerSettings, BrokerArgumentError>)
        ensures
            r == broker_settings_of(text_views(args@)),
    {
        if args.len() != 3 {
            return Ok(
                BrokerSettings { listen_port: BROKER_PORT, start_port: 4100, max_in_flight: 4 },
            );
        }
        proof {
            assert(text_views(args@)[0] == args@[0]@);
            assert(text_views(args@)[1] == args@[1]@);
            assert(text_views(args@)[2] == args@[2]@);
        }
        let listen_port = match parse_port_number(args[0].as_str()) {
            Some(port) => port,
            None => {
                return Err(BrokerArgumentError::ListenPort);
            },
        };
        let start_port = match parse_port_number(args[1].as_str()) {
            Some(port) => port,
            None => {
                return Err(BrokerArgumentError::StartPort);
            },
        };
        let max_in_flight = match parse_count_text(args[2].as_str()) {
            Some(count) => count,
            None => {
                return Err(BrokerArgumentError::MaxInFlight);
            },
        };
        Ok(BrokerSettings { listen_port, start_port, max_in_flight })
    }
}

/// A request to run Python.
#[derive(PartialEq, Eq, Debug)]
pub enum PythonToolRequest {
    /// The value of one expression.
    Eval(String),
    /// A run of a whole program.
    Run(String),
}

/// The mathematical value of a [`PythonToolRequest`].
pub enum PythonToolRequestView {
    Eval(Seq<char>),
    Run(Seq<char>),
}

impl View for PythonToolRequest {
    type V = PythonToolRequestView;

    open spec fn view(&self) -> PythonToolRequestView {
        match self {
            PythonToolRequest::Eval(e) => PythonToolRequestView::Eval(e@),
            PythonToolRequest::Run(p) => PythonToolRequestView::Run(p@),
        }
    }
}

/// The text that carries a request: the verb on a line of its own, then the payload.
pub open spec fn request_text(request: PythonToolRequestView) -> Seq<char> {
    match request {
        PythonToolRequestView::Run(program) => "run\n"@ + program,
        PythonToolRequestView::Eval(expression) => "eval\n"@ + expression,
    }
}

impl PythonToolRequest {
    /// The text that carries the request.
    pub fn to_string(&self) -> (r: String)
        ensures
            r@ == request_text(self@),
    {
        match self {
            PythonToolRequest::Run(program) => "run\n".to_string().concat(program.as_str()),
            PythonToolRequest::Eval(expression) => "eval\n".to_string().concat(
                expression.as_str(),
            ),
        }
    }
}

/// Why the text of a request was refused.
#[derive(Clone, Copy, PartialEq, Eq, Structural, Debug)]
pub enum RequestError {
    /// The first line is neither `run` nor `eval`.
    InvalidFormat,
    /// There is no second line.
    InvalidNumberOfArguments,
    /// The frame holds no text.
    InvalidCommandFormat,
}

/// What a client is told of a refused request.
pub open spec fn request_error_text(error: RequestError) -> Seq<char> {
    match error {
        RequestError::InvalidFormat => "Invalid format"@,
        RequestError::InvalidNumberOfArguments => "Invalid number of arguments"@,
        RequestError::InvalidCommandFormat => "Invalid command format"@,
    }
}

impl RequestError {
    /// What a client is told of the refusal.
    pub fn message(&self) -> (r: String)
        ensures
            r@ == request_error_text(*self),
    {
        match self {
            RequestError::InvalidFormat => "Invalid format".to_string(),
            RequestError::InvalidNumberOfArguments => "Invalid number of arguments".to_string(),
            RequestError::InvalidCommandFormat => "Invalid command format".to_string(),
        }
    }
}

/// The request that `input` carries: it has two lines or more, the first is
/// the verb, and what follows the verb, without the whitespace around it, is
/// the payload.
pub open spec fn parsed_request(input: Seq<char>) -> Result<PythonToolRequestView, RequestError> {
    let all = lines(input);
    if all.len() > 1 {
        if all[0] == "run"@ {
            Ok(PythonToolRequestView::Run(trim(input.skip(3))))
        } else if all[0] == "eval"@ {
            Ok(PythonToolRequestView::Eval(trim(input.skip(4))))
        } else {
            Err(RequestError::InvalidFormat)
        }
    } else {
        Err(RequestError::InvalidNumberOfArguments)
    }
}

/// Reads the request that `input` carries.
pub fn parse_request(input: &str) -> (r: Result<PythonToolRequest, RequestError>)
    ensures
        match r {
            Ok(request) => parsed_request(input@) == Ok::<PythonToolRequestView, RequestError>(
                request@,
            ),
            Err(error) => parsed_request(input@) == Err::<PythonToolRequestView, RequestError>(
                error,
            ),
        },
{
    let all = lines_of(input);
    if all.len() > 1 {
        proof {
            assert(text_views(all@)[0] == all@[0]@);
            reveal_strlit("run");
            reveal_strlit("eval");
            lemma_first_line_is_prefix(input@);
        }
        let v = chars_of(input);
        if same_text(all[0].as_str(), "run") {
            let (a, b) = trim_bounds(&v, 3, v.len());
            proof {
                assert(v@.subrange(3, v.len() as int) =~= input@.skip(3));
            }
            Ok(PythonToolRequest::Run(string_of(&v, a, b)))
        } else if same_text(all[0].as_str(), "eval") {
            let (a, b) = trim_bounds(&v, 4, v.len());
            proof {
                assert(v@.subrange(4, v.len() as int) =~= input@.skip(4));
            }
            Ok(PythonToolRequest::Eval(string_of(&v, a, b)))
        } else {
            Err(RequestError::InvalidFormat)
        }
    } else {
        Err(RequestError::InvalidNumberOfArguments)
    }
}

/// The first line of a text is no longer than the text.
pub proof fn lemma_first_line_is_prefix(s: Seq<char>)
    requires
        lines(s).len() > 0,
    ensures
        lines(s)[0].len() <= s.len(),
{
    lemma_first_index_bounds(s, '\n');
}

proof fn lemma_first_index_bounds(s: Seq<char>, c: char)
    ensures
        0 <= crate::text::first_index_of(s, c) <= s.len(),
    decreases s.len(),
{
    if s.len() == 0 || s[0] == c {
    } else {
        lemma_first_index_bounds(s.drop_first(), c);
    }
}

/// The streams that an interpreter writes to.
#[derive(Clone, Copy, PartialEq, Eq, Structural, Debug)]
pub enum StreamTag {
    Stdout,
    Stderr,
}

/// The mark that stands in front of what was written to a stream.
pub open spec fn tag_text(tag: StreamTag) -> Seq<char> {
    match tag {
        StreamTag::Stdout => "stdout_prox"@,
        StreamTag::Stderr => "stderr_prox"@,
    }
}

impl StreamTag {
    /// The mark that stands in front of what was written to the stream.
    pub fn mark(&self) -> (r: String)
        ensures
            r@ == tag_text(*self),
    {
        match self {
            StreamTag::Stdout => "stdout_prox".to_string(),
            StreamTag::Stderr => "stderr_prox".to_string(),
        }
    }

    /// What is sent for a piece of text written to the stream: the mark of
    /// the stream, then the text.
    pub fn tagged(&self, text: &str) -> (r: String)
        ensures
            r@ == tag_text(*self) + text@,
    {
        self.mark().concat(text)
    }
}

/// What the reply `s` holds of each stream, after `out` and `err` that were
/// found before: every character between a mark and the next belongs to the
/// stream of that mark; what stands in front of the first mark belongs to
/// neither.
pub open spec fn demuxed(s: Seq<char>, current: Option<StreamTag>, out: Seq<char>, err: Seq<char>)
    -> (Seq<char>, Seq<char>)
    decreases s.len(),
{
    if s.len() == 0 {
        (out, err)
    } else if starts_with(s, tag_text(StreamTag::Stdout)) && tag_text(StreamTag::Stdout).len()
        > 0 {
        demuxed(s.skip(tag_text(StreamTag::Stdout).len() as int), Some(StreamTag::Stdout), out, err)
    } else if starts_with(s, tag_text(StreamTag::Stderr)) && tag_text(StreamTag::Stderr).len()
        > 0 {
        demuxed(s.skip(tag_text(StreamTag::Stderr).len() as int), Some(StreamTag::Stderr), out, err)
    } else {
        match current {
            Some(StreamTag::Stdout) => demuxed(s.drop_first(), current, out.push(s[0]), err),
            Some(StreamTag::Stderr) => demuxed(s.drop_first(), current, out, err.push(s[0])),
            None => demuxed(s.drop_first(), current, out, err),
        }
    }
}

/// What the model is shown of the reply of an interpreter.
pub open spec fn python_output(reply: Seq<char>) -> Seq<char> {
    let (out, err) = demuxed(reply, None, Seq::empty(), Seq::empty());
    "stdout:\n"@ + out + "\nstderr:\n"@ + err + "\n"@
}

/// Takes the reply of an interpreter apart and writes it out for the model.
pub fn format_python_output(reply: &str) -> (r: String)
    ensures
        r@ == python_output(reply@),
{
    let v = chars_of(reply);
    let out_tag = chars_of("stdout_prox");
    let err_tag = chars_of("stderr_prox");
    proof {
        reveal_strlit("stdout_prox");
        reveal_strlit("stderr_prox");
    }
    let mut out: Vec<char> = Vec::new();
    let mut err: Vec<char> = Vec::new();
    let mut current: Option<StreamTag> = None;
    let mut i: usize = 0;
    proof {
        assert(v@.skip(0) =~= v@);
    }
    while i < v.len()
        invariant
            i <= v.len(),
            v@ == reply@,
            out_tag@ == tag_text(StreamTag::Stdout),
            err_tag@ == tag_text(StreamTag::Stderr),
            out_tag@.len() == 11,
            err_tag@.len() == 11,
            demuxed(v@, None, Seq::empty(), Seq::empty()) == demuxed(
                v@.skip(i as int),
                current,
                out@,
                err@,
            ),
        decreases v.len() - i,
    {
        let ghost rest = v@.skip(i as int);
        let at_out = vec_matches_at(&v, &out_tag, i);
        let at_err = vec_matches_at(&v, &err_tag, i);
        proof {
            if i + 11 <= v.len() {
                assert(rest.subrange(0, 11) =~= v@.subrange(i as int, i + 11));
            }
            assert(at_out == starts_with(rest, out_tag@));
            assert(at_err == starts_with(rest, err_tag@));
        }
        if at_out {
            proof {
                assert(rest.skip(11) =~= v@.skip(i + 11));
            }
            current = Some(StreamTag::Stdout);
            i += 11;
        } else if at_err {
            proof {
                assert(rest.skip(11) =~= v@.skip(i + 11));
            }
            current = Some(StreamTag::Stderr);
            i += 11;
        } else {
            proof {
                assert(rest.drop_first() =~= v@.skip(i + 1));
            }
            match current {
                Some(StreamTag::Stdout) => out.push(v[i]),
                Some(StreamTag::Stderr) => err.push(v[i]),
                None => {},
            }
            i += 1;
        }
    }
    let out_text = string_of(&out, 0, out.len());
    let err_text = string_of(&err, 0, err.len());
    proof {
        assert(out@.subrange(0, out.len() as int) =~= out@);
        assert(err@.subrange(0, err.len() as int) =~= err@);
    }
    "stdout:\n".to_string().concat(out_text.as_str()).concat("\nstderr:\n").concat(
        err_text.as_str(),
    ).concat("\n")
}

/// What an interpreter is to do.
#[derive(PartialEq, Eq, Debug)]
pub enum ExecutorTask {
    /// Evaluate one expression.
    Eval(String),
    /// Run a program.
    Run(String),
    /// Nothing: the command asks for nothing that can be done.
    Nothing,
}

/// The mathematical value of an [`ExecutorTask`].
pub enum ExecutorTaskView {
    Eval(Seq<char>),
    Run(Seq<char>),
    Nothing,
}

impl View for ExecutorTask {
    type V = ExecutorTaskView;

    open spec fn view(&self) -> ExecutorTaskView {
        match self {
            ExecutorTask::Eval(e) => ExecutorTaskView::Eval(e@),
            ExecutorTask::Run(p) => ExecutorTaskView::Run(p@),
            ExecutorTask::Nothing => ExecutorTaskView::Nothing,
        }
    }
}

/// The lines put together, each followed by a line feed.
pub open spec fn program_text(program_lines: Seq<Seq<char>>) -> Seq<char>
    decreases program_lines.len(),
{
    if program_lines.len() == 0 {
        Seq::empty()
    } else {
        program_text(program_lines.drop_last()) + program_lines.last() + "\n"@
    }
}

/// What the command `command` has an interpreter do: the first line is the
/// verb; `eval` takes the second line, trimmed, as the expression, and `run`
/// takes all lines after the first as the program.
pub open spec fn executor_task(command: Seq<char>) -> ExecutorTaskView {
    let all = lines(command);
    if all.len() >= 2 {
        if all[0] == "eval"@ {
            ExecutorTaskView::Eval(trim(all[1]))
        } else if all[0] == "run"@ {
            ExecutorTaskView::Run(program_text(all.skip(1)))
        } else {
            ExecutorTaskView::Nothing
        }
    } else {
        ExecutorTaskView::Nothing
    }
}

/// What the command `command` has an interpreter do.
pub fn plan_execution(command: &str) -> (r: ExecutorTask)
    ensures
        r@ == executor_task(command@),
{
    let all = lines_of(command);
    if all.len() >= 2 {
        proof {
            assert(text_views(all@)[0] == all@[0]@);
            assert(text_views(all@)[1] == all@[1]@);
        }
        if same_text(all[0].as_str(), "eval") {
            ExecutorTask::Eval(trim_text(all[1].as_str()))
        } else if same_text(all[0].as_str(), "run") {
            let mut program = String::new();
            let ghost rest = text_views(all@).skip(1);
            let mut i: usize = 1;
            proof {
                assert(rest.take(0).len() == 0);
            }
            while i < all.len()
                invariant
                    1 <= i <= all.len(),
                    rest == text_views(all@).skip(1),
                    program@ == program_text(rest.take(i - 1)),
                decreases all.len() - i,
            {
                proof {
                    assert(rest.take(i as int).drop_last() =~= rest.take(i - 1));
                    assert(rest.take(i as int).last() == all@[i as int]@);
                }
                program.append(all[i].as_str());
                program.append("\n");
                i += 1;
            }
            proof {
                assert(rest.take(all.len() - 1) =~= rest);
            }
            ExecutorTask::Run(program)
        } else {
            ExecutorTask::Nothing
        }
    } else {
        ExecutorTask::Nothing
    }
}

/// The admission control of the broker: how many executions are under way,
/// and which of its ports are free.
#[derive(PartialEq, Eq, Debug)]
pub struct QueueHandlerData {
    in_flight: usize,
    start_port: u16,
    max_in_flight: usize,
    thread_counter: usize,
    ports: Vec<u16>,
}

/// The mathematical value of a [`QueueHandlerData`].
pub struct BrokerView {
    pub in_flight: nat,
    pub start_port: u16,
    pub max_in_flight: nat,
    pub thread_counter: usize,
    pub free_ports: Seq<u16>,
}

impl View for QueueHandlerData {
    type V = BrokerView;

    closed spec fn view(&self) -> BrokerView {
        BrokerView {
            in_flight: self.in_flight as nat,
            start_port: self.start_port,
            max_in_flight: self.max_in_flight as nat,
            thread_counter: self.thread_counter,
            free_ports: self.ports@,
        }
    }
}

impl BrokerView {
    /// Whether `port` is one of the ports of the broker.
    pub open spec fn owns(self, port: u16) -> bool {
        self.start_port <= port < self.start_port + self.max_in_flight
    }

    /// What holds of the broker at every instant: the free ports and the
    /// executions under way add up to the limit, so that no more than the
    /// limit are under way; every free port is one of the ports of the
    /// broker, and none is free twice.
    pub open spec fn wf(self) -> bool {
        &&& self.free_ports.len() + self.in_flight == self.max_in_flight
        &&& self.start_port + self.max_in_flight <= 65536
        &&& forall|i: int| 0 <= i < self.free_ports.len() ==> self.owns(#[trigger] self.free_ports[i])
        &&& forall|i: int, j: int|
            0 <= i < j < self.free_ports.len() ==> self.free_ports[i] != self.free_ports[j]
    }

    /// Whether an execution can start: a slot and a port are free.
    pub open spec fn can_start(self) -> bool {
        self.in_flight < self.max_in_flight && self.free_ports.len() > 0
    }

    /// The broker after it was asked to start an execution: where one can
    /// start, it is under way on the port that was free longest; else
    /// nothing changes.
    pub open spec fn started(self) -> BrokerView {
        if self.can_start() {
            BrokerView {
                in_flight: self.in_flight + 1,
                free_ports: self.free_ports.drop_first(),
                thread_counter: if self.thread_counter < usize::MAX {
                    (self.thread_counter + 1) as usize
                } else {
                    0
                },
                ..self
            }
        } else {
            self
        }
    }

    /// Whether an execution of the broker is under way on `port`.
    pub open spec fn in_use(self, port: u16) -> bool {
        self.owns(port) && !self.free_ports.contains(port)
    }

    /// The broker after it was told that the execution on `port` is over:
    /// where one was under way there, the port is free again, behind the
    /// others; else nothing changes.
    pub open spec fn finished(self, port: u16) -> BrokerView {
        if self.in_use(port) {
            BrokerView {
                in_flight: (self.in_flight - 1) as nat,
                free_ports: self.free_ports.push(port),
                ..self
            }
        } else {
            self
        }
    }

    /// The broker after the events `events`, in order.
    pub open spec fn after(self, events: Seq<BrokerEvent>) -> BrokerView
        decreases events.len(),
    {
        if events.len() == 0 {
            self
        } else {
            let before = self.after(events.drop_last());
            match events.last() {
                BrokerEvent::StartAsked => before.started(),
                BrokerEvent::Over(port) => before.finished(port),
            }
        }
    }
}

/// What happens at the broker.
pub enum BrokerEvent {
    /// The scheduler asks for an execution to start.
    StartAsked,
    /// The execution on a port is reported to be over.
    Over(u16),
}

/// What the broker gives an execution that starts.
#[derive(Clone, Copy, PartialEq, Eq, Structural, Debug)]
pub struct Launch {
    /// The port that the executor is reached at.
    pub port: u16,
    /// The number of the execution, counted from the start of the broker.
    pub thread_number: usize,
}

/// What the scheduler of the broker does next.
#[derive(Clone, Copy, PartialEq, Eq, Structural, Debug)]
pub enum BrokerAction {
    /// Take the next request from the queue and start it.
    Dequeue,
    /// Wait until an execution is over.
    AwaitCompletion,
}

impl QueueHandlerData {
    /// A broker with `max_in_flight` ports from `start_port` on, all free.
    /// `None` where those ports do not all exist.
    pub fn new(max_in_flight: usize, start_port: u16) -> (r: Option<QueueHandlerData>)
        ensures
            match r {
                Some(broker) => {
                    &&& start_port + max_in_flight <= 65536
                    &&& broker@.wf()
                    &&& broker@.in_flight == 0
                    &&& broker@.max_in_flight == max_in_flight
                    &&& broker@.start_port == start_port
                    &&& broker@.thread_counter == 0
                    &&& broker@.free_ports.len() == max_in_flight
                    &&& forall|i: int|
                        0 <= i < max_in_flight ==> broker@.free_ports[i] == start_port + i
                },
                None => start_port + max_in_flight > 65536,
            },
    {
        if max_in_flight > 65536 || max_in_flight > 65536 - start_port as usize {
            return None;
        }
        let mut ports: Vec<u16> = Vec::new();
        let mut i: usize = 0;
        while i < max_in_flight
            invariant
                i <= max_in_flight,
                start_port + max_in_flight <= 65536,
                ports.len() == i,
                forall|j: int| 0 <= j < i ==> ports@[j] == start_port + j,
            decreases max_in_flight - i,
        {
            ports.push((start_port as usize + i) as u16);
            i += 1;
        }
        Some(QueueHandlerData { in_flight: 0, max_in_flight, ports, start_port, thread_counter: 0 })
    }

    /// Whether the free ports and the executions under way add up to the
    /// limit, and the free ports are ports of the broker, each free once.
    pub fn is_well_formed(&self) -> (r: bool)
        ensures
            r == self@.wf(),
    {
        if self.max_in_flight > 65536 || self.max_in_flight > 65536 - self.start_port as usize {
            return false;
        }
        if self.ports.len() > self.max_in_flight || self.max_in_flight - self.ports.len()
            != self.in_flight {
            return false;
        }
        let mut j: usize = 0;
        while j < self.ports.len()
            invariant
                j <= self.ports.len(),
                self.start_port + self.max_in_flight <= 65536,
                forall|i: int| 0 <= i < j ==> self@.owns(#[trigger] self@.free_ports[i]),
                forall|a: int, b: int|
                    0 <= a < b < j ==> self@.free_ports[a] != self@.free_ports[b],
            decreases self.ports.len() - j,
        {
            let port = self.ports[j];
            if !(self.start_port <= port && (port as usize) < self.start_port as usize
                + self.max_in_flight) {
                proof {
                    assert(!self@.owns(self@.free_ports[j as int]));
                }
                return false;
            }
            let mut i: usize = 0;
            while i < j
                invariant
                    i <= j < self.ports.len(),
                    port == self@.free_ports[j as int],
                    forall|a: int| 0 <= a < i ==> self@.free_ports[a] != port,
                decreases j - i,
            {
                if self.ports[i] == port {
                    proof {
                        assert(self@.free_ports[i as int] == self@.free_ports[j as int]);
                    }
                    return false;
                }
                i += 1;
            }
            j += 1;
        }
        true
    }

    /// The number of executions under way.
    pub fn active(&self) -> (r: usize)
        ensures
            r == self@.in_flight,
    {
        self.in_flight
    }

    /// The ports that are free, the one that is given out next first.
    pub fn free_ports(&self) -> (r: &Vec<u16>)
        ensures
            r@ == self@.free_ports,
    {
        &self.ports
    }

    /// The greatest number of executions under way at once.
    pub fn limit(&self) -> (r: usize)
        ensures
            r == self@.max_in_flight,
    {
        self.max_in_flight
    }

    /// What the scheduler does next: it takes a request where a slot and a
    /// port are free, and waits for an execution to end otherwise.
    pub fn next_action(&self) -> (r: BrokerAction)
        ensures
            r == if self@.can_start() {
                BrokerAction::Dequeue
            } else {
                BrokerAction::AwaitCompletion
            },
    {
        if self.in_flight < self.max_in_flight && self.ports.len() > 0 {
            BrokerAction::Dequeue
        } else {
            BrokerAction::AwaitCompletion
        }
    }

    /// Starts an execution where a slot and a port are free: takes the port
    /// that has been free longest and counts the execution.
    pub fn start(&mut self) -> (r: Option<Launch>)
        requires
            old(self)@.wf(),
        ensures
            final(self)@.wf(),
            final(self)@ == old(self)@.started(),
            match r {
                Some(launch) => {
                    &&& old(self)@.can_start()
                    &&& launch.port == old(self)@.free_ports[0]
                    &&& launch.thread_number == old(self)@.thread_counter
                },
                None => !old(self)@.can_start(),
            },
    {
        if !(self.in_flight < self.max_in_flight && self.ports.len() > 0) {
            return None;
        }
        let port = self.ports.remove(0);
        self.in_flight += 1;
        let count = self.thread_counter;
        self.thread_counter = if count < usize::MAX {
            count + 1
        } else {
            0
        };
        proof {
            assert(self.ports@ =~= old(self).ports@.drop_first());
            assert forall|i: int| 0 <= i < self@.free_ports.len() implies self@.owns(
                #[trigger] self@.free_ports[i],
            ) by {
                assert(old(self)@.owns(old(self)@.free_ports[i + 1]));
            }
        }
        Some(Launch { port, thread_number: count })
    }

    /// Whether `port` is free.
    pub fn is_free(&self, port: u16) -> (r: bool)
        ensures
            r == self@.free_ports.contains(port),
    {
        let mut i: usize = 0;
        while i < self.ports.len()
            invariant
                i <= self.ports.len(),
                forall|j: int| 0 <= j < i ==> self@.free_ports[j] != port,
            decreases self.ports.len() - i,
        {
            if self.ports[i] == port {
                return true;
            }
            i += 1;
        }
        false
    }

    /// Takes note that the execution on `port` is over and frees the port.
    /// A port that is not in use by an execution of this broker changes
    /// nothing. Returns whether the port was freed.
    pub fn finish(&mut self, port: u16) -> (r: bool)
        requires
            old(self)@.wf(),
        ensures
            final(self)@.wf(),
            r == old(self)@.in_use(port),
            final(self)@ == old(self)@.finished(port),
    {
        let owned = self.start_port <= port && (port as usize) < self.start_port as usize
            + self.max_in_flight;
        if !owned || self.is_free(port) {
            return false;
        }
        proof {
            lemma_port_in_use(self@, port);
        }
        self.in_flight -= 1;
        self.ports.push(port);
        true
    }
}

/// Whatever happens at a well-formed broker, in whatever order, it stays
/// well formed: at every instant no more executions are under way than
/// the limit, which does not change, and the free ports and the
/// executions under way add up to it.
pub proof fn lemma_broker_stays_within_limit(broker: BrokerView, events: Seq<BrokerEvent>)
    requires
        broker.wf(),
    ensures
        broker.after(events).wf(),
        broker.after(events).max_in_flight == broker.max_in_flight,
        broker.after(events).start_port == broker.start_port,
        broker.after(events).in_flight <= broker.max_in_flight,
        broker.after(events).free_ports.len() + broker.after(events).in_flight
            == broker.max_in_flight,
    decreases events.len(),
{
    if events.len() > 0 {
        lemma_broker_stays_within_limit(broker, events.drop_last());
        let before = broker.after(events.drop_last());
        match events.last() {
            BrokerEvent::StartAsked => {
                if before.can_start() {
                    let after = before.started();
                    assert forall|i: int| 0 <= i < after.free_ports.len() implies after.owns(
                        #[trigger] after.free_ports[i],
                    ) by {
                        assert(before.owns(before.free_ports[i + 1]));
                    }
                }
            },
            BrokerEvent::Over(port) => {
                if before.in_use(port) {
                    lemma_port_in_use(before, port);
                }
            },
        }
    }
}

/// Where one of the broker's ports is not free, an execution is under way.
pub proof fn lemma_port_in_use(broker: BrokerView, port: u16)
    requires
        broker.wf(),
        broker.owns(port),
        !broker.free_ports.contains(port),
    ensures
        broker.in_flight > 0,
{
    if broker.in_flight == 0 {
        // All ports of the broker would be free, and among them `port`.
        let free = broker.free_ports;
        let n = broker.max_in_flight;
        let owned = Set::new(|p: u16| broker.owns(p));
        let all = Set::new(|i: int| broker.start_port <= i < broker.start_port + n);
        vstd::set_lib::lemma_int_range(broker.start_port as int, broker.start_port + n);
        assert(all =~= vstd::set_lib::set_int_range(
            broker.start_port as int,
            broker.start_port + n,
        ));
        let free_set = free.to_set();
        free.unique_seq_to_set();
        let as_ints = free_set.map(|p: u16| p as int);
        vstd::set_lib::lemma_map_size(free_set, as_ints, |p: u16| p as int);
        assert(as_ints.subset_of(all)) by {
            assert forall|x: int| as_ints.contains(x) implies all.contains(x) by {
                let p = choose|p: u16| free_set.contains(p) && p as int == x;
                let i = choose|i: int| 0 <= i < free.len() && free[i] == p;
                assert(broker.owns(free[i]));
            }
        }
        vstd::set_lib::lemma_subset_equality(as_ints, all);
        assert(all.contains(port as int));
        assert(as_ints.contains(port as int));
        let q = choose|q: u16| free_set.contains(q) && q as int == port as int;
        assert(q == port);
        assert(free.contains(port));
    }
}

} // verus!
