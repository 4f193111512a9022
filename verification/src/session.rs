//! The per-connection bridge session: channels opened over the transport,
//! exec commands parsed and dispatched, and inbound bytes decoded frame by
//! frame and relayed to the collaborating process's standard input. The
//! session decides; the surrounding program performs the process spawning
//! and the byte shuttling it is told to do.

use crate::codec::{
    encode_spec, step_spec, CodecMode, FrameError, GitCodec, GitMessage, MessageView, StepResult,
};
use crate::hex;
use vstd::prelude::*;
use vstd::slice::slice_to_vec;

verus! {

/// The faults a session reports: an exec command it does not recognize,
/// inbound data before any child process holds a standard input to relay
/// to, and a framing fault from the decoder.
#[derive(Clone, Copy, Debug, PartialEq, Eq)]
pub enum SessionError {
    UnsupportedCommand,
    MissingChild,
    Framing(FrameError),
}

/// ASCII whitespace, the separators of an exec command line.
pub open spec fn is_ascii_whitespace(b: u8) -> bool {
    b == 32 || (9 <= b && b <= 13)
}

/// The length of the maximal whitespace-free prefix of `s`.
pub open spec fn token_len(s: Seq<u8>) -> nat
    decreases s.len(),
{
    if s.len() == 0 || is_ascii_whitespace(s[0]) {
        0
    } else {
        (1 + token_len(s.skip(1))) as nat
    }
}

pub proof fn lemma_token_len_le(s: Seq<u8>)
    ensures
        token_len(s) <= s.len(),
    decreases s.len(),
{
    if s.len() == 0 || is_ascii_whitespace(s[0]) {
    } else {
        lemma_token_len_le(s.skip(1));
    }
}

/// The whitespace-separated words of `s`, in order.
pub open spec fn tokens_of(s: Seq<u8>) -> Seq<Seq<u8>>
    decreases s.len(),
{
    if s.len() == 0 {
        seq![]
    } else if is_ascii_whitespace(s[0]) {
        tokens_of(s.skip(1))
    } else {
        proof {
            lemma_token_len_le(s);
        }
        seq![s.take(token_len(s) as int)] + tokens_of(s.skip(token_len(s) as int))
    }
}

/// A scan that stops at the first whitespace byte (or the end) has measured
/// the token's length.
proof fn lemma_token_len_boundary(s: Seq<u8>, k: int)
    requires
        0 <= k <= s.len(),
        forall|j: int| 0 <= j < k ==> !is_ascii_whitespace(s[j]),
        k == s.len() || is_ascii_whitespace(s[k]),
    ensures
        token_len(s) == k,
    decreases s.len(),
{
    if k == 0 {
    } else {
        let t = s.skip(1);
        assert(forall|j: int| 0 <= j < k - 1 ==> t[j] == s[j + 1]);
        lemma_token_len_boundary(t, k - 1);
    }
}

/// Tests one byte for ASCII whitespace.
pub fn is_ascii_ws_byte(b: u8) -> (r: bool)
    ensures
        r == is_ascii_whitespace(b),
{
    b == 32 || (9 <= b && b <= 13)
}

/// Byte-wise equality of two slices.
pub fn bytes_eq(a: &[u8], b: &[u8]) -> (r: bool)
    ensures
        r == (a@ == b@),
{
    if a.len() != b.len() {
        proof {
            if a@ == b@ {
                assert(a@.len() == b@.len());
            }
        }
        return false;
    }
    let mut i: usize = 0;
    while i < a.len()
        invariant
            i <= a@.len(),
            a@.len() == b@.len(),
            forall|j: int| 0 <= j < i ==> a@[j] == b@[j],
        decreases a@.len() - i,
    {
        if a[i] != b[i] {
            return false;
        }
        i = i + 1;
    }
    assert(a@ =~= b@);
    true
}

/// Splits an exec command line into its verb and arguments on ASCII
/// whitespace; `None` when the line holds no word at all.
pub fn parse_command(data: &[u8]) -> (r: Option<(Vec<u8>, Vec<Vec<u8>>)>)
    ensures
        match r {
            None => tokens_of(data@).len() == 0,
            Some(parts) => {
                &&& tokens_of(data@).len() >= 1
                &&& parts.0@ == tokens_of(data@)[0]
                &&& parts.1@.len() + 1 == tokens_of(data@).len()
                &&& forall|i: int|
                    0 <= i < parts.1@.len() ==> parts.1@[i]@ == tokens_of(data@)[i + 1]
            },
        },
{
    let mut toks: Vec<Vec<u8>> = Vec::new();
    let mut pos: usize = 0;
    proof {
        assert(data@.skip(0) =~= data@);
        assert(Seq::new(toks@.len(), |i: int| toks@[i]@) + tokens_of(data@) =~= tokens_of(data@));
    }
    while pos < data.len()
        invariant
            pos <= data@.len(),
            Seq::new(toks@.len(), |i: int| toks@[i]@) + tokens_of(data@.skip(pos as int))
                == tokens_of(data@),
        decreases data@.len() - pos,
    {
        let ghost views0 = Seq::new(toks@.len(), |i: int| toks@[i]@);
        if is_ascii_ws_byte(data[pos]) {
            proof {
                let s = data@.skip(pos as int);
                assert(s[0] == data@[pos as int]);
                assert(s.skip(1) =~= data@.skip(pos as int + 1));
            }
            pos = pos + 1;
        } else {
            let mut end = pos + 1;
            while end < data.len() && !is_ascii_ws_byte(data[end])
                invariant
                    pos < end <= data@.len(),
                    forall|j: int| pos <= j < end ==> !is_ascii_whitespace(data@[j]),
                decreases data@.len() - end,
            {
                end = end + 1;
            }
            proof {
                let s = data@.skip(pos as int);
                let k = end - pos;
                assert(forall|j: int| 0 <= j < k ==> s[j] == data@[pos + j]);
                if end < data@.len() {
                    assert(s[k as int] == data@[end as int]);
                }
                lemma_token_len_boundary(s, k as int);
            }
            let tok = slice_to_vec(&data[pos..end]);
            proof {
                let s = data@.skip(pos as int);
                assert(tok@ =~= s.take((end - pos) as int));
                assert(s.skip((end - pos) as int) =~= data@.skip(end as int));
            }
            toks.push(tok);
            proof {
                assert(Seq::new(toks@.len(), |i: int| toks@[i]@) =~= views0.push(tok@));
                assert(views0.push(tok@) + tokens_of(data@.skip(end as int)) =~= views0 + (seq![
                    tok@,
                ] + tokens_of(data@.skip(end as int))));
            }
            pos = end;
        }
    }
    assert(data@.skip(pos as int) =~= Seq::<u8>::empty());
    let ghost views = Seq::new(toks@.len(), |i: int| toks@[i]@);
    proof {
        assert(views + tokens_of(data@.skip(pos as int)) =~= views);
    }
    if toks.len() == 0 {
        return None;
    }
    let verb = toks.remove(0);
    proof {
        assert(forall|i: int| 0 <= i < toks@.len() ==> toks@[i]@ == views[i + 1]);
    }
    Some((verb, toks))
}

/// `s` with every single-quote byte removed.
pub open spec fn without_quotes(s: Seq<u8>) -> Seq<u8>
    decreases s.len(),
{
    if s.len() == 0 {
        seq![]
    } else if s[0] == 39 {
        without_quotes(s.skip(1))
    } else {
        seq![s[0]] + without_quotes(s.skip(1))
    }
}

/// `s` with every leading slash byte removed.
pub open spec fn without_leading_slashes(s: Seq<u8>) -> Seq<u8>
    decreases s.len(),
{
    if s.len() > 0 && s[0] == 47 {
        without_leading_slashes(s.skip(1))
    } else {
        s
    }
}

/// The repository name taken from an exec argument: quote characters
/// dropped, then any leading slashes.
pub open spec fn normalized_repo_name(s: Seq<u8>) -> Seq<u8> {
    without_leading_slashes(without_quotes(s))
}

/// The filesystem path of a repository under the data directory.
pub open spec fn joined_path(dir: Seq<u8>, name: Seq<u8>) -> Seq<u8> {
    dir + seq![47u8] + name
}

proof fn lemma_leading_slashes(s: Seq<u8>, k: int)
    requires
        0 <= k <= s.len(),
        forall|j: int| 0 <= j < k ==> s[j] == 47,
        k == s.len() || s[k] != 47,
    ensures
        without_leading_slashes(s) == s.skip(k),
    decreases k,
{
    if k == 0 {
        assert(s.skip(0) =~= s);
    } else {
        let t = s.skip(1);
        assert(forall|j: int| 0 <= j < k - 1 ==> t[j] == s[j + 1]);
        lemma_leading_slashes(t, k - 1);
        assert(t.skip(k - 1) =~= s.skip(k));
    }
}

/// Cleans an exec path argument into a repository name: single quotes
/// removed everywhere, leading slashes stripped.
pub fn normalize_repo_name(arg: &[u8]) -> (r: Vec<u8>)
    ensures
        r@ == normalized_repo_name(arg@),
{
    let mut unquoted: Vec<u8> = Vec::new();
    let mut i: usize = 0;
    proof {
        assert(arg@.skip(0) =~= arg@);
        assert(unquoted@ + without_quotes(arg@) =~= without_quotes(arg@));
    }
    while i < arg.len()
        invariant
            i <= arg@.len(),
            unquoted@ + without_quotes(arg@.skip(i as int)) == without_quotes(arg@),
        decreases arg@.len() - i,
    {
        let ghost s = arg@.skip(i as int);
        proof {
            assert(s[0] == arg@[i as int]);
            assert(s.skip(1) =~= arg@.skip(i as int + 1));
        }
        let b = arg[i];
        if b != 39 {
            unquoted.push(b);
            proof {
                assert(unquoted@ + without_quotes(arg@.skip(i as int + 1)) =~= (unquoted@.drop_last()
                    + seq![b]) + without_quotes(arg@.skip(i as int + 1)));
            }
        }
        i = i + 1;
    }
    proof {
        assert(arg@.skip(arg@.len() as int) =~= Seq::<u8>::empty());
        assert(unquoted@ + without_quotes(arg@.skip(arg@.len() as int)) =~= unquoted@);
    }
    let mut k: usize = 0;
    while k < unquoted.len() && unquoted[k] == 47
        invariant
            k <= unquoted@.len(),
            forall|j: int| 0 <= j < k ==> unquoted@[j] == 47,
        decreases unquoted@.len() - k,
    {
        k = k + 1;
    }
    proof {
        lemma_leading_slashes(unquoted@, k as int);
    }
    let name = slice_to_vec(&unquoted.as_slice()[k..unquoted.len()]);
    assert(name@ =~= unquoted@.skip(k as int));
    name
}

/// The verb that starts a push exchange.
pub open spec fn verb_receive_pack() -> Seq<u8> {
    seq![
        'g' as u8, 'i' as u8, 't' as u8, '-' as u8, 'r' as u8, 'e' as u8, 'c' as u8, 'e' as u8,
        'i' as u8, 'v' as u8, 'e' as u8, '-' as u8, 'p' as u8, 'a' as u8, 'c' as u8, 'k' as u8,
    ]
}

/// The diagnostic passthrough verb.
pub open spec fn verb_cat() -> Seq<u8> {
    seq!['c' as u8, 'a' as u8, 't' as u8]
}

/// Builds the bytes of the push verb.
pub fn verb_receive_pack_bytes() -> (r: Vec<u8>)
    ensures
        r@ == verb_receive_pack(),
{
    let mut v: Vec<u8> = Vec::new();
    v.push('g' as u8);
    v.push('i' as u8);
    v.push('t' as u8);
    v.push('-' as u8);
    v.push('r' as u8);
    v.push('e' as u8);
    v.push('c' as u8);
    v.push('e' as u8);
    v.push('i' as u8);
    v.push('v' as u8);
    v.push('e' as u8);
    v.push('-' as u8);
    v.push('p' as u8);
    v.push('a' as u8);
    v.push('c' as u8);
    v.push('k' as u8);
    assert(v@ =~= verb_receive_pack());
    v
}

/// Builds the bytes of the passthrough verb.
pub fn verb_cat_bytes() -> (r: Vec<u8>)
    ensures
        r@ == verb_cat(),
{
    let mut v: Vec<u8> = Vec::new();
    v.push('c' as u8);
    v.push('a' as u8);
    v.push('t' as u8);
    assert(v@ =~= verb_cat());
    v
}

/// What an accepted exec command asks the surrounding program to do.
#[derive(Clone, Debug, PartialEq, Eq)]
pub enum ExecDecision {
    /// Spawn the pack-receiving process for the repository named by the
    /// command's first argument.
    ReceivePack { arg: Vec<u8> },
    /// Spawn the diagnostic passthrough process.
    Cat,
}

/// The outcome of an authentication attempt; every credential is accepted,
/// a placeholder kept on purpose.
#[derive(Clone, Copy, Debug, PartialEq, Eq)]
pub enum AuthOutcome {
    Accept,
}

/// What dispatching a push command settled: where the repository lives and
/// whether it must be initialized before the process is spawned.
#[derive(Clone, Debug)]
pub struct ReceivePackPlan {
    pub repo_path: Vec<u8>,
    pub init_repo: bool,
}

/// What one inbound chunk produced: the re-framed bytes owed to the child's
/// standard input, whether an empty frame ended this invocation's inbound
/// relay, and the framing fault that stopped decoding, if one did.
#[derive(Clone, Debug)]
pub struct DataOutcome {
    pub to_child: Vec<u8>,
    pub end_of_input: bool,
    pub framing_error: Option<FrameError>,
}

/// True of the frames that signal end-of-input: a flush, or a sized frame
/// with nothing in it.
pub open spec fn is_end_marker(m: MessageView) -> bool {
    match m {
        MessageView::Flush => true,
        MessageView::Data(p) => p.len() == 0,
        MessageView::PackData(_) => false,
    }
}

/// What relaying a buffer to the child does: every decoded frame is
/// re-encoded onto the child's input, an end marker stops the run (and is
/// itself still forwarded), and an incomplete or malformed remainder is
/// left in place.
pub struct RelayResult {
    pub to_child: Seq<u8>,
    pub rest: Seq<u8>,
    pub mode: CodecMode,
    pub end: bool,
    pub err: Option<FrameError>,
}

/// Decodes and re-encodes frames from the front of `b` until the input is
/// exhausted, an end marker is decoded, or a framing fault stops the run.
pub open spec fn relay_spec(mode: CodecMode, b: Seq<u8>) -> RelayResult
    decreases b.len(),
{
    match step_spec(mode, b) {
        StepResult::Incomplete => RelayResult {
            to_child: seq![],
            rest: b,
            mode,
            end: false,
            err: None,
        },
        StepResult::Fail(e) => RelayResult {
            to_child: seq![],
            rest: b,
            mode,
            end: false,
            err: Some(e),
        },
        StepResult::Msg { msg, consumed, mode: m2 } => {
            if is_end_marker(msg) {
                RelayResult {
                    to_child: encode_spec(msg),
                    rest: b.skip(consumed),
                    mode: m2,
                    end: true,
                    err: None,
                }
            } else {
                let tail = relay_spec(m2, b.skip(consumed));
                RelayResult {
                    to_child: encode_spec(msg) + tail.to_child,
                    rest: tail.rest,
                    mode: tail.mode,
                    end: tail.end,
                    err: tail.err,
                }
            }
        },
    }
}

/// The listening side of the transport: it only knows where repositories
/// live, and mints one session per connection.
#[derive(Clone, Debug)]
pub struct SshServer {
    pub data_dir: Vec<u8>,
}

/// One connection's state: the channels whose handles the connection still
/// owns (by identifier; the handles themselves live with the transport),
/// whether a child's standard input is held and a relay task runs, the
/// pending inbound bytes, and the frame codec with its sticky mode.
#[derive(Debug)]
pub struct SshSession {
    pub channels: Vec<u64>,
    pub data_dir: Vec<u8>,
    pub child_stdin: bool,
    pub child_task: bool,
    pub input_buf: Vec<u8>,
    pub codec: GitCodec,
}

impl SshServer {
    /// A fresh session for a newly accepted connection.
    pub fn new_client(&self) -> (r: SshSession)
        ensures
            r.channels@ == Seq::<u64>::empty(),
            r.data_dir@ == self.data_dir@,
            !r.child_stdin,
            !r.child_task,
            r.input_buf@ == Seq::<u8>::empty(),
            r.codec.mode is Frame,
    {
        SshSession {
            channels: Vec::new(),
            data_dir: slice_to_vec(self.data_dir.as_slice()),
            child_stdin: false,
            child_task: false,
            input_buf: Vec::new(),
            codec: GitCodec::new(),
        }
    }
}

impl SshSession {
    /// True while the session still owns the handle of `channel_id`.
    pub open spec fn has_channel(&self, channel_id: u64) -> bool {
        self.channels@.contains(channel_id)
    }

    /// Accepts a newly opened channel, storing its identifier.
    pub fn channel_open_session(&mut self, channel_id: u64) -> (accept: bool)
        ensures
            accept,
            final(self).channels@ == old(self).channels@.push(channel_id),
            final(self).data_dir == old(self).data_dir,
            final(self).child_stdin == old(self).child_stdin,
            final(self).child_task == old(self).child_task,
            final(self).input_buf == old(self).input_buf,
            final(self).codec.mode == old(self).codec.mode,
    {
        self.channels.push(channel_id);
        true
    }

    /// Surrenders the channel handle to a relay task: the first stored
    /// occurrence of `channel_id` leaves the session's keeping.
    pub fn get_channel(&mut self, channel_id: u64) -> (found: bool)
        requires
            old(self).has_channel(channel_id),
        ensures
            found,
            final(self).channels@ == old(self).channels@.remove_value(channel_id),
            final(self).data_dir == old(self).data_dir,
            final(self).child_stdin == old(self).child_stdin,
            final(self).child_task == old(self).child_task,
            final(self).input_buf == old(self).input_buf,
            final(self).codec.mode == old(self).codec.mode,
    {
        let mut i: usize = 0;
        while i < self.channels.len()
            invariant
                i <= self.channels@.len(),
                forall|j: int| 0 <= j < i ==> self.channels@[j] != channel_id,
                *self == *old(self),
            decreases self.channels@.len() - i,
        {
            if self.channels[i] == channel_id {
                self.channels.remove(i);
                proof {
                    old(self).channels@.index_of_first_ensures(channel_id);
                }
                return true;
            }
            i = i + 1;
        }
        proof {
            let w = choose|j: int|
                0 <= j < old(self).channels@.len() && old(self).channels@[j] == channel_id;
            assert(false);
        }
        false
    }

    /// Every password is accepted; authentication policy is out of scope.
    pub fn auth_password(&self, _user: &str, _password: &str) -> (r: AuthOutcome)
        ensures
            r is Accept,
    {
        AuthOutcome::Accept
    }

    /// Every public key is accepted; authentication policy is out of scope.
    pub fn auth_publickey(&self, _user: &str) -> (r: AuthOutcome)
        ensures
            r is Accept,
    {
        AuthOutcome::Accept
    }

    /// Dispatches an exec command line: the push verb with a path argument
    /// or the passthrough verb is accepted, anything else — an empty line,
    /// an unknown verb, or a push with no argument — is unsupported.
    pub fn exec_request(&self, data: &[u8]) -> (r: Result<ExecDecision, SessionError>)
        ensures
            ({
                let toks = tokens_of(data@);
                if toks.len() == 0 {
                    r == Err::<ExecDecision, SessionError>(SessionError::UnsupportedCommand)
                } else if toks[0] == verb_receive_pack() && toks.len() >= 2 {
                    r matches Ok(ExecDecision::ReceivePack { arg }) && arg@ == toks[1]
                } else if toks[0] == verb_cat() {
                    r == Ok::<ExecDecision, SessionError>(ExecDecision::Cat)
                } else {
                    r == Err::<ExecDecision, SessionError>(SessionError::UnsupportedCommand)
                }
            }),
    {
        let parsed = parse_command(data);
        match parsed {
            None => Err(SessionError::UnsupportedCommand),
            Some((verb, mut args)) => {
                let rp = verb_receive_pack_bytes();
                let cat = verb_cat_bytes();
                if bytes_eq(verb.as_slice(), rp.as_slice()) {
                    if args.len() >= 1 {
                        let arg = args.remove(0);
                        Ok(ExecDecision::ReceivePack { arg })
                    } else {
                        Err(SessionError::UnsupportedCommand)
                    }
                } else if bytes_eq(verb.as_slice(), cat.as_slice()) {
                    Ok(ExecDecision::Cat)
                } else {
                    Err(SessionError::UnsupportedCommand)
                }
            },
        }
    }

    /// The repository path an exec argument names, under the data
    /// directory.
    pub fn repo_path_for(&self, arg: &[u8]) -> (r: Vec<u8>)
        ensures
            r@ == joined_path(self.data_dir@, normalized_repo_name(arg@)),
    {
        let name = normalize_repo_name(arg);
        let mut repo_path = slice_to_vec(self.data_dir.as_slice());
        repo_path.push(47);
        repo_path.extend_from_slice(name.as_slice());
        assert(repo_path@ =~= joined_path(self.data_dir@, normalized_repo_name(arg@)));
        repo_path
    }

    /// Dispatches a push command: the channel handle moves to the relay
    /// task, the child's standard input will be held, and the plan says
    /// where the repository lives and whether it must be initialized first
    /// (exactly when none exists yet).
    pub fn receive_pack(&mut self, channel_id: u64, arg: &[u8], repo_exists: bool) -> (r:
        ReceivePackPlan)
        requires
            old(self).has_channel(channel_id),
        ensures
            r.repo_path@ == joined_path(old(self).data_dir@, normalized_repo_name(arg@)),
            r.init_repo == !repo_exists,
            final(self).channels@ == old(self).channels@.remove_value(channel_id),
            final(self).child_stdin,
            final(self).child_task,
            final(self).data_dir == old(self).data_dir,
            final(self).input_buf == old(self).input_buf,
            final(self).codec.mode == old(self).codec.mode,
    {
        let repo_path = self.repo_path_for(arg);
        self.get_channel(channel_id);
        self.child_stdin = true;
        self.child_task = true;
        ReceivePackPlan { repo_path, init_repo: !repo_exists }
    }

    /// Dispatches the passthrough command: the channel handle moves to the
    /// relay task and the child's standard input will be held.
    pub fn cat(&mut self, channel_id: u64)
        requires
            old(self).has_channel(channel_id),
        ensures
            final(self).channels@ == old(self).channels@.remove_value(channel_id),
            final(self).child_stdin,
            final(self).child_task,
            final(self).data_dir == old(self).data_dir,
            final(self).input_buf == old(self).input_buf,
            final(self).codec.mode == old(self).codec.mode,
    {
        self.get_channel(channel_id);
        self.child_stdin = true;
        self.child_task = true;
    }

    /// Takes one inbound chunk: appends it to the pending buffer, then
    /// decodes and re-encodes frame after frame for the child's standard
    /// input, stopping at an end marker, at an incomplete remainder (left
    /// buffered for the next chunk), or at a framing fault. Data before any
    /// child holds a standard input is a missing-child fault.
    pub fn data(&mut self, data: &[u8]) -> (r: Result<DataOutcome, SessionError>)
        ensures
            ({
                let buf0 = old(self).input_buf@ + data@;
                &&& final(self).channels == old(self).channels
                &&& final(self).data_dir == old(self).data_dir
                &&& final(self).child_stdin == old(self).child_stdin
                &&& final(self).child_task == old(self).child_task
                &&& if !old(self).child_stdin {
                    &&& r == Err::<DataOutcome, SessionError>(SessionError::MissingChild)
                    &&& final(self).input_buf@ == buf0
                    &&& final(self).codec.mode == old(self).codec.mode
                } else {
                    let relay = relay_spec(old(self).codec.mode, buf0);
                    &&& r matches Ok(out) && out.to_child@ == relay.to_child && out.end_of_input
                        == relay.end && out.framing_error == relay.err
                    &&& final(self).input_buf@ == relay.rest
                    &&& final(self).codec.mode == relay.mode
                }
            }),
    {
        self.input_buf.extend_from_slice(data);
        proof {
            assert(self.input_buf@ =~= old(self).input_buf@ + data@);
        }
        if !self.child_stdin {
            return Err(SessionError::MissingChild);
        }
        let ghost mode0 = self.codec.mode;
        let ghost buf0 = self.input_buf@;
        let ghost relay0 = relay_spec(mode0, buf0);
        let mut to_child: Vec<u8> = Vec::new();
        let mut end = false;
        let mut ferr: Option<FrameError> = None;
        let mut done = false;
        while !done
            invariant
                self.channels == old(self).channels,
                self.data_dir == old(self).data_dir,
                self.child_stdin == old(self).child_stdin,
                self.child_task == old(self).child_task,
                relay0 == relay_spec(mode0, buf0),
                !done ==> {
                    let here = relay_spec(self.codec.mode, self.input_buf@);
                    &&& relay0.to_child == to_child@ + here.to_child
                    &&& relay0.rest == here.rest
                    &&& relay0.mode == here.mode
                    &&& relay0.end == here.end
                    &&& relay0.err == here.err
                    &&& !end
                    &&& ferr is None
                },
                done ==> {
                    &&& to_child@ == relay0.to_child
                    &&& self.input_buf@ == relay0.rest
                    &&& self.codec.mode == relay0.mode
                    &&& end == relay0.end
                    &&& ferr == relay0.err
                },
            decreases self.input_buf@.len() + (if done {
                0int
            } else {
                1int
            }),
        {
            let ghost pre_mode = self.codec.mode;
            let ghost pre_buf = self.input_buf@;
            let step = self.codec.decode(&mut self.input_buf);
            match step {
                Err(e) => {
                    ferr = Some(e);
                    done = true;
                },
                Ok(None) => {
                    done = true;
                },
                Ok(Some(msg)) => {
                    proof {
                        if msg@ matches MessageView::Data(p) {
                            hex::lemma_hex4_value_bound(pre_buf.take(4));
                        }
                    }
                    let ghost to_child0 = to_child@;
                    self.codec.encode(&msg, &mut to_child);
                    let is_end = match &msg {
                        GitMessage::Flush => true,
                        GitMessage::Data(p) => p.len() == 0,
                        GitMessage::PackData(_) => false,
                    };
                    if is_end {
                        end = true;
                        done = true;
                    }
                    proof {
                        assert(relay_spec(pre_mode, pre_buf).to_child == encode_spec(msg@)
                            + if is_end_marker(msg@) {
                            seq![]
                        } else {
                            relay_spec(self.codec.mode, self.input_buf@).to_child
                        });
                        assert(to_child0 + (encode_spec(msg@) + if is_end_marker(msg@) {
                            seq![]
                        } else {
                            relay_spec(self.codec.mode, self.input_buf@).to_child
                        }) =~= to_child@ + if is_end_marker(msg@) {
                            seq![]
                        } else {
                            relay_spec(self.codec.mode, self.input_buf@).to_child
                        });
                        if is_end_marker(msg@) {
                            assert(to_child@ + seq![] =~= to_child@);
                        }
                    }
                },
            }
        }
        Ok(DataOutcome { to_child, end_of_input: end, framing_error: ferr })
    }
}

} // verus!
