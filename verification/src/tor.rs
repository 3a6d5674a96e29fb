//! The exit country option and the line protocol between the launcher and its
//! Tor worker process.
use vstd::prelude::*;

use crate::address::{worker_address_usable, SocketAddress};
use vstd::utf8::*;
use crate::text::{
    chars_equal_at, chars_of, is_ascii_alpha_char, is_control_char, is_white_space_char, string_of,
};

verus! {

/// The hint given for a refused exit country.
pub open spec fn country_hint() -> Seq<char> {
    "use um código de país de duas letras fora do Brasil, como US ou DE"@
}

/// The exit country chosen by `value`: two ASCII letters, upper-cased, other
/// than Brazil.
pub open spec fn country_outcome(value: Seq<char>) -> Option<Seq<char>> {
    let u = crate::text::upper_all(value);
    if u.len() == 2 && crate::text::is_ascii_alpha(u[0]) && crate::text::is_ascii_alpha(u[1])
        && !(u[0] == 'B' && u[1] == 'R') {
        Some(u)
    } else {
        None
    }
}

/// An exit country is two ASCII letters in either case, written back in upper
/// case, and Brazil is refused however it is written.
pub proof fn lemma_country_rule(v: Seq<char>)
    ensures
        country_outcome(v) matches Some(c) ==> v.len() == 2 && c.len() == 2 && (forall|i: int|
            0 <= i < 2 ==> 'A' <= #[trigger] c[i] <= 'Z' && (c[i] == v[i] || c[i] as int == v[i] as int
                - 32)) && !(c[0] == 'B' && c[1] == 'R'),
        v.len() == 2 && crate::text::is_ascii_alpha(v[0]) && crate::text::is_ascii_alpha(v[1])
            && !((v[0] == 'B' || v[0] == 'b') && (v[1] == 'R' || v[1] == 'r')) ==> country_outcome(v) is Some,
        v.len() == 2 && (v[0] == 'B' || v[0] == 'b') && (v[1] == 'R' || v[1] == 'r') ==> country_outcome(v) is None,
        v.len() != 2 ==> country_outcome(v) is None,
{
    let u = crate::text::upper_all(v);
    if v.len() == 2 {
        assert(u[0] == crate::text::ascii_upper(v[0]));
        assert(u[1] == crate::text::ascii_upper(v[1]));
    }
}

/// Parses the exit country option.
pub fn country(value: &str) -> (r: Result<String, String>)
    ensures
        match r {
            Ok(c) => country_outcome(value@) == Some(c@),
            Err(m) => country_outcome(value@) is None && m@ == country_hint(),
        },
{
    let upper = crate::text::uppercase_ascii(value);
    let chars = chars_of(upper.as_str());
    if chars.len() != 2 || !is_ascii_alpha_char(chars[0]) || !is_ascii_alpha_char(chars[1]) || (
    chars[0] == 'B' && chars[1] == 'R') {
        return Err(String::from_str("use um código de país de duas letras fora do Brasil, como US ou DE"));
    }
    Ok(upper)
}

/// Characters kept from a payload.
pub const MAX_PAYLOAD_CHARS: usize = 512;

/// A control character becomes a space.
pub open spec fn scrub(c: char) -> char {
    if crate::text::is_control(c) {
        ' '
    } else {
        c
    }
}

/// The words of `s` (maximal runs of characters that are not white space),
/// joined by single spaces: `split_whitespace` followed by `join(" ")`.
pub open spec fn joined_words(s: Seq<char>) -> Seq<char>
    decreases s.len(),
{
    if s.len() == 0 {
        Seq::empty()
    } else {
        let p = s.drop_last();
        let c = s.last();
        let w = joined_words(p);
        if crate::text::is_white_space(c) {
            w
        } else if p.len() > 0 && !crate::text::is_white_space(p.last()) {
            w.push(c)
        } else if w.len() == 0 {
            seq![c]
        } else {
            w.push(' ').push(c)
        }
    }
}

/// A payload as it may travel on one protocol line: control characters become
/// spaces, at most 512 characters are kept, and white space is collapsed.
pub open spec fn clean_payload(v: Seq<char>) -> Seq<char> {
    let m = v.map_values(|c: char| scrub(c));
    joined_words(m.take(if m.len() < MAX_PAYLOAD_CHARS { m.len() as int } else { MAX_PAYLOAD_CHARS as int }))
}

/// Makes a payload safe for one protocol line.
pub fn clean_protocol_payload(value: &str) -> (r: String)
    ensures
        r@ == clean_payload(value@),
{
    let chars = chars_of(value);
    let ghost m = value@.map_values(|c: char| scrub(c));
    let limit = if chars.len() < MAX_PAYLOAD_CHARS {
        chars.len()
    } else {
        MAX_PAYLOAD_CHARS
    };
    let mut out = String::new();
    let mut in_word = false;
    let mut i: usize = 0;
    while i < limit
        invariant
            limit <= chars.len(),
            chars@ == value@,
            m == value@.map_values(|c: char| scrub(c)),
            i <= limit,
            out@ == joined_words(m.take(i as int)),
            in_word == (i > 0 && !crate::text::is_white_space(m[i - 1])),
        decreases limit - i,
    {
        let raw = chars[i];
        let c = if is_control_char(raw) {
            ' '
        } else {
            raw
        };
        assert(c == m[i as int]);
        let ghost before = m.take(i as int);
        assert(m.take(i + 1).drop_last() =~= before);
        assert(m.take(i + 1).last() == c);
        if is_white_space_char(c) {
            in_word = false;
        } else {
            if in_word {
                out.push(c);
            } else if out.as_str().is_empty() {
                out.push(c);
                assert(out@ =~= seq![c]);
            } else {
                out.push(' ');
                out.push(c);
            }
            in_word = true;
        }
        i = i + 1;
    }
    assert(m.take(limit as int) == m.take(
        if m.len() < MAX_PAYLOAD_CHARS {
            m.len() as int
        } else {
            MAX_PAYLOAD_CHARS as int
        },
    ));
    out
}

/// One protocol line, without its end: the kind, a tab, the cleaned payload.
pub open spec fn protocol_line_spec(kind: Seq<char>, payload: Seq<char>) -> Seq<char> {
    kind.push('\t') + clean_payload(payload)
}

pub fn protocol_line(kind: &str, payload: &str) -> (r: String)
    ensures
        r@ == protocol_line_spec(kind@, payload@),
{
    let mut line = String::from_str(kind);
    line.push('\t');
    let clean = clean_protocol_payload(payload);
    line.append(clean.as_str());
    line
}

/// Why a line from the worker is refused.
#[derive(Clone, Copy, Debug, PartialEq, Eq)]
pub enum ProtocolError {
    /// The line has no tab between kind and payload.
    MissingSeparator,
    /// The payload is empty.
    EmptyPayload,
    /// A READY payload is not a socket address.
    InvalidAddress,
    /// The kind is none of PROGRESS, READY, ERROR.
    UnknownKind,
    /// The line is longer than the protocol allows.
    LineTooLong,
    /// The line is not UTF-8.
    InvalidUtf8,
    /// The announced address is not a loopback address with a port.
    UnusableAddress,
}

/// A message of the worker.
#[derive(Clone, Debug, PartialEq, Eq)]
pub enum WorkerMessage {
    Progress(String),
    Ready(SocketAddress),
    Error(String),
}

pub enum WorkerMessageView {
    Progress(Seq<char>),
    Ready(SocketAddress),
    Error(Seq<char>),
}

impl View for WorkerMessage {
    type V = WorkerMessageView;

    open spec fn view(&self) -> WorkerMessageView {
        match self {
            WorkerMessage::Progress(s) => WorkerMessageView::Progress(s@),
            WorkerMessage::Ready(a) => WorkerMessageView::Ready(*a),
            WorkerMessage::Error(s) => WorkerMessageView::Error(s@),
        }
    }
}

/// The socket address that the text of a READY message names.
pub open spec fn socket_address_from_text(text: Seq<char>) -> Option<SocketAddress> {
    crate::netparse::socket_address_spec(text)
}

/// The line without its trailing carriage returns and line feeds.
pub open spec fn trim_line_end(s: Seq<char>) -> Seq<char>
    decreases s.len(),
{
    if s.len() > 0 && (s.last() == '\r' || s.last() == '\n') {
        trim_line_end(s.drop_last())
    } else {
        s
    }
}

/// `i` is the position of the first tab of `s`.
pub open spec fn first_tab_at(s: Seq<char>, i: int) -> bool {
    &&& 0 <= i < s.len()
    &&& s[i] == '\t'
    &&& forall|j: int| 0 <= j < i ==> s[j] != '\t'
}

pub open spec fn has_tab(s: Seq<char>) -> bool {
    exists|i: int| 0 <= i < s.len() && s[i] == '\t'
}

/// What the launcher makes of one line from the worker: the end of line is
/// dropped, the kind is what precedes the first tab, the payload what follows
/// it and must not be empty.
pub open spec fn message_outcome(line: Seq<char>) -> Result<WorkerMessageView, ProtocolError> {
    let t = trim_line_end(line);
    if !has_tab(t) {
        Err(ProtocolError::MissingSeparator)
    } else {
        let i = choose|i: int| first_tab_at(t, i);
        let kind = t.subrange(0, i);
        let payload = t.subrange(i + 1, t.len() as int);
        if payload.len() == 0 {
            Err(ProtocolError::EmptyPayload)
        } else if kind == "PROGRESS"@ {
            Ok(WorkerMessageView::Progress(payload))
        } else if kind == "READY"@ {
            match socket_address_from_text(payload) {
                Some(a) => Ok(WorkerMessageView::Ready(a)),
                None => Err(ProtocolError::InvalidAddress),
            }
        } else if kind == "ERROR"@ {
            Ok(WorkerMessageView::Error(payload))
        } else {
            Err(ProtocolError::UnknownKind)
        }
    }
}

fn line_end(chars: &Vec<char>) -> (end: usize)
    ensures
        end <= chars.len(),
        chars@.subrange(0, end as int) == trim_line_end(chars@),
{
    let mut end = chars.len();
    assert(chars@.subrange(0, end as int) =~= chars@);
    while end > 0 && (chars[end - 1] == '\r' || chars[end - 1] == '\n')
        invariant
            end <= chars.len(),
            trim_line_end(chars@.subrange(0, end as int)) == trim_line_end(chars@),
        decreases end,
    {
        assert(chars@.subrange(0, end as int).drop_last() =~= chars@.subrange(0, end - 1));
        end = end - 1;
    }
    end
}

proof fn lemma_first_tab_unique(t: Seq<char>, i: int)
    requires
        first_tab_at(t, i),
    ensures
        has_tab(t),
        (choose|k: int| first_tab_at(t, k)) == i,
{
    let k = choose|k: int| first_tab_at(t, k);
    assert(first_tab_at(t, k));
    if k < i {
        assert(t[k] != '\t');
    }
    if k > i {
        assert(t[i] != '\t');
    }
}

fn tab_position(chars: &Vec<char>, end: usize) -> (r: Option<usize>)
    requires
        end <= chars.len(),
    ensures
        r matches Some(i) ==> first_tab_at(chars@.subrange(0, end as int), i as int),
        r is None ==> !has_tab(chars@.subrange(0, end as int)),
{
    let ghost t = chars@.subrange(0, end as int);
    let mut i: usize = 0;
    while i < end && chars[i] != '\t'
        invariant
            i <= end <= chars.len(),
            t == chars@.subrange(0, end as int),
            forall|j: int| 0 <= j < i ==> t[j] != '\t',
        decreases end - i,
    {
        i = i + 1;
    }
    if i == end {
        None
    } else {
        Some(i)
    }
}

/// Whether `chars[..len]` is the word `word`.
fn kind_is(chars: &Vec<char>, len: usize, word: &str) -> (r: bool)
    requires
        len <= chars.len(),
    ensures
        r == (chars@.subrange(0, len as int) == word@),
{
    let w = chars_of(word);
    if len != w.len() {
        assert(chars@.subrange(0, len as int).len() != word@.len());
        return false;
    }
    chars_equal_at(chars, 0, &w)
}

/// Reads one line of the worker protocol.
pub fn parse_worker_message(line: &str) -> (r: Result<WorkerMessage, ProtocolError>)
    ensures
        match r {
            Ok(m) => message_outcome(line@) == Ok::<WorkerMessageView, ProtocolError>(m@),
            Err(e) => message_outcome(line@) == Err::<WorkerMessageView, ProtocolError>(e),
        },
{
    let chars = chars_of(line);
    let end = line_end(&chars);
    let ghost t = chars@.subrange(0, end as int);
    let i = match tab_position(&chars, end) {
        Some(i) => i,
        None => return Err(ProtocolError::MissingSeparator),
    };
    proof {
        lemma_first_tab_unique(t, i as int);
        assert(chars@.subrange(0, i as int) == t.subrange(0, i as int));
        assert(chars@.subrange(i + 1, end as int) == t.subrange(i + 1, t.len() as int));
    }
    if i + 1 == end {
        return Err(ProtocolError::EmptyPayload);
    }
    let text = string_of(&chars, i + 1, end);
    if kind_is(&chars, i, "PROGRESS") {
        return Ok(WorkerMessage::Progress(text));
    }
    if kind_is(&chars, i, "READY") {
        return match crate::netparse::parse_socket_address(&chars_of(text.as_str())) {
            Some(a) => Ok(WorkerMessage::Ready(a)),
            None => Err(ProtocolError::InvalidAddress),
        };
    }
    if kind_is(&chars, i, "ERROR") {
        return Ok(WorkerMessage::Error(text));
    }
    Err(ProtocolError::UnknownKind)
}

/// The address a READY message announces is used only when it is a loopback
/// address with a port.
pub fn check_ready_address(address: SocketAddress) -> (r: Result<SocketAddress, ProtocolError>)
    ensures
        crate::address::usable_worker_address(address) ==> r == Ok::<SocketAddress, ProtocolError>(address),
        !crate::address::usable_worker_address(address) ==> r == Err::<SocketAddress, ProtocolError>(
            ProtocolError::UnusableAddress,
        ),
{
    if worker_address_usable(address) {
        Ok(address)
    } else {
        Err(ProtocolError::UnusableAddress)
    }
}

/// What the launcher does with one line read from a starting worker, or with
/// the end of its output.
#[derive(Clone, Debug, PartialEq, Eq)]
pub enum StartupStep {
    /// Show this progress and keep reading.
    Status(String),
    /// The worker is ready at this address.
    Ready(SocketAddress),
    /// The worker reported this error: stop it and fail.
    WorkerError(String),
    /// The line breaks the protocol: fail with this error.
    Refused(ProtocolError),
    /// The worker's output ended before it was ready.
    Exited,
}

pub enum StartupStepView {
    Status(Seq<char>),
    Ready(SocketAddress),
    WorkerError(Seq<char>),
    Refused(ProtocolError),
    Exited,
}

impl View for StartupStep {
    type V = StartupStepView;

    open spec fn view(&self) -> StartupStepView {
        match self {
            StartupStep::Status(s) => StartupStepView::Status(s@),
            StartupStep::Ready(a) => StartupStepView::Ready(*a),
            StartupStep::WorkerError(s) => StartupStepView::WorkerError(s@),
            StartupStep::Refused(e) => StartupStepView::Refused(*e),
            StartupStep::Exited => StartupStepView::Exited,
        }
    }
}

/// The launcher's decision for a line of a starting worker (`None` at the end
/// of its output): a progress message is shown, a READY address is used when
/// it is a loopback address with a port, an ERROR message ends the start, and
/// anything else breaks the protocol.
pub open spec fn startup_outcome(line: Option<Seq<char>>) -> StartupStepView {
    match line {
        None => StartupStepView::Exited,
        Some(l) => match message_outcome(l) {
            Err(e) => StartupStepView::Refused(e),
            Ok(WorkerMessageView::Progress(p)) => StartupStepView::Status(p),
            Ok(WorkerMessageView::Ready(a)) => if crate::address::usable_worker_address(a) {
                StartupStepView::Ready(a)
            } else {
                StartupStepView::Refused(ProtocolError::UnusableAddress)
            },
            Ok(WorkerMessageView::Error(p)) => StartupStepView::WorkerError(p),
        },
    }
}

/// Decides what one line of a starting worker means.
pub fn on_worker_line(line: Option<&str>) -> (r: StartupStep)
    ensures
        r@ == startup_outcome(
            match line {
                None => None,
                Some(l) => Some(l@),
            },
        ),
{
    match line {
        None => StartupStep::Exited,
        Some(l) => match parse_worker_message(l) {
            Err(e) => StartupStep::Refused(e),
            Ok(WorkerMessage::Progress(p)) => StartupStep::Status(p),
            Ok(WorkerMessage::Ready(a)) => match check_ready_address(a) {
                Ok(a) => StartupStep::Ready(a),
                Err(e) => StartupStep::Refused(e),
            },
            Ok(WorkerMessage::Error(p)) => StartupStep::WorkerError(p),
        },
    }
}

/// The longest line, in bytes, that the launcher reads from the worker.
pub const MAX_PROTOCOL_LINE: usize = 4096;

/// `i` is the position of the first line feed of `a`.
pub open spec fn first_newline_at(a: Seq<u8>, i: int) -> bool {
    &&& 0 <= i < a.len()
    &&& a[i] == 10
    &&& forall|j: int| 0 <= j < i ==> a[j] != 10
}

pub open spec fn has_newline(a: Seq<u8>) -> bool {
    exists|i: int| 0 <= i < a.len() && a[i] == 10
}

/// How many bytes of `a` belong to the current line: up to and including the
/// first line feed, or all of them.
pub open spec fn line_part(a: Seq<u8>) -> int {
    if has_newline(a) {
        (choose|i: int| first_newline_at(a, i)) + 1
    } else {
        a.len() as int
    }
}

/// The bytes of one line being read, never more than `MAX_PROTOCOL_LINE`.
pub struct LineBuffer {
    line: Vec<u8>,
}

/// What `LineBuffer::feed` took from the available bytes.
#[derive(Clone, Copy, Debug, PartialEq, Eq)]
pub struct LinePiece {
    /// How many of the available bytes now belong to the line.
    pub consumed: usize,
    /// Whether the last of them is the line feed that ends the line.
    pub complete: bool,
}

impl View for LineBuffer {
    type V = Seq<u8>;

    closed spec fn view(&self) -> Seq<u8> {
        self.line@
    }
}

impl LineBuffer {
    #[verifier::type_invariant]
    spec fn bounded(self) -> bool {
        self.line@.len() <= MAX_PROTOCOL_LINE
    }

    pub fn new() -> (r: LineBuffer)
        ensures
            r@ == Seq::<u8>::empty(),
    {
        LineBuffer { line: Vec::new() }
    }

    /// Takes the bytes of `available` that belong to the current line; refuses
    /// them, keeping the buffer as it was, when the line would grow past
    /// `MAX_PROTOCOL_LINE`.
    pub fn feed(&mut self, available: &[u8]) -> (r: Result<LinePiece, ProtocolError>)
        ensures
            old(self)@.len() + line_part(available@) > MAX_PROTOCOL_LINE ==> r == Err::<
                LinePiece,
                ProtocolError,
            >(ProtocolError::LineTooLong) && final(self)@ == old(self)@,
            old(self)@.len() + line_part(available@) <= MAX_PROTOCOL_LINE ==> r == Ok::<
                LinePiece,
                ProtocolError,
            >(LinePiece { consumed: line_part(available@) as usize, complete: has_newline(available@) })
                && final(self)@ == old(self)@ + available@.take(line_part(available@)),
            final(self)@.len() <= MAX_PROTOCOL_LINE,
            final(self)@.len() <= 4096,
            old(self)@.len() + available@.len() <= 4096 ==> r is Ok,
    {
        proof {
            use_type_invariant(&*self);
        }
        let mut k: usize = 0;
        while k < available.len() && available[k] != 10
            invariant
                k <= available@.len(),
                forall|j: int| 0 <= j < k ==> available@[j] != 10,
            decreases available.len() - k,
        {
            k = k + 1;
        }
        let complete = k < available.len();
        let consumed = if complete {
            k + 1
        } else {
            k
        };
        proof {
            if complete {
                assert(first_newline_at(available@, k as int));
                let c = choose|i: int| first_newline_at(available@, i);
                assert(c == k as int) by {
                    if c < k {
                        assert(available@[c] != 10);
                    }
                    if c > k {
                        assert(available@[k as int] == 10);
                    }
                }
            } else {
                assert(!has_newline(available@));
            }
        }
        if consumed > MAX_PROTOCOL_LINE - self.line.len() {
            return Err(ProtocolError::LineTooLong);
        }
        let mut line = Vec::new();
        let mut j: usize = 0;
        while j < self.line.len()
            invariant
                j <= self.line@.len(),
                line@ == self.line@.subrange(0, j as int),
            decreases self.line.len() - j,
        {
            line.push(self.line[j]);
            j = j + 1;
        }
        let mut j: usize = 0;
        while j < consumed
            invariant
                consumed <= available@.len(),
                j <= consumed,
                line@ == self.line@ + available@.subrange(0, j as int),
            decreases consumed - j,
        {
            line.push(available[j]);
            j = j + 1;
        }
        assert(line@ =~= old(self)@ + available@.take(consumed as int));
        self.line = line;
        Ok(LinePiece { consumed, complete })
    }

    /// The line read: nothing when no byte came before the end of input,
    /// otherwise its UTF-8 text.
    pub fn finish(self) -> (r: Result<Option<String>, ProtocolError>)
        ensures
            self@.len() == 0 ==> r == Ok::<Option<String>, ProtocolError>(None),
            self@.len() > 0 && !valid_utf8(self@) ==> r == Err::<Option<String>, ProtocolError>(
                ProtocolError::InvalidUtf8,
            ),
            self@.len() > 0 && valid_utf8(self@) ==> (r matches Ok(Some(text)) && text@ == decode_utf8(
                self@,
            )),
    {
        if self.line.len() == 0 {
            return Ok(None);
        }
        match core::str::from_utf8(self.line.as_slice()) {
            Ok(text) => Ok(Some(String::from_str(text))),
            Err(_) => Err(ProtocolError::InvalidUtf8),
        }
    }
}

/// The joined words hold no white space but single spaces between words.
/// Joined words hold single spaces and characters that are not white space,
/// and end with a character that is not white space.
pub proof fn lemma_words_shape(s: Seq<char>)
    ensures
        forall|i: int|
            0 <= i < joined_words(s).len() ==> #[trigger] joined_words(s)[i] == ' '
                || !crate::text::is_white_space(joined_words(s)[i]),
        joined_words(s).len() > 0 ==> !crate::text::is_white_space(joined_words(s).last()),
    decreases s.len(),
{
    if s.len() > 0 {
        lemma_words_shape(s.drop_last());
    }
}

proof fn lemma_words_clean(s: Seq<char>)
    requires
        forall|j: int| 0 <= j < s.len() ==> !crate::text::is_control(#[trigger] s[j]),
    ensures
        joined_words(s).len() <= s.len(),
        s.len() > 0 && crate::text::is_white_space(s.last()) ==> joined_words(s).len() < s.len(),
        forall|i: int|
            0 <= i < joined_words(s).len() ==> !crate::text::is_control(#[trigger] joined_words(s)[i]),
        forall|i: int|
            0 <= i < joined_words(s).len() - 1 && #[trigger] joined_words(s)[i] == ' ' ==> joined_words(
                s,
            )[i + 1] != ' ',
        joined_words(s).len() > 0 ==> !crate::text::is_white_space(joined_words(s)[0]),
    decreases s.len(),
{
    if s.len() > 0 {
        let p = s.drop_last();
        assert forall|j: int| 0 <= j < p.len() implies !crate::text::is_control(#[trigger] p[j]) by {
            assert(p[j] == s[j]);
        }
        lemma_words_clean(p);
        lemma_words_shape(p);
        let w = joined_words(p);
        let c = s.last();
        assert(!crate::text::is_control(s[s.len() - 1]));
        let x = joined_words(s);
        if !crate::text::is_white_space(c) {
            if p.len() > 0 && !crate::text::is_white_space(p.last()) {
                assert(x == w.push(c));
            } else if w.len() == 0 {
                assert(x == seq![c]);
            } else {
                assert(x == w.push(' ').push(c));
                assert(x[w.len() as int - 1] == w.last());
            }
        }
    }
}

/// A cleaned payload fits one protocol line: at most 512 characters, no
/// control character (so no tab and no line end), white space only as single
/// spaces between words, and none at either end.
pub proof fn lemma_clean_payload_shape(v: Seq<char>)
    ensures
        clean_payload(v).len() <= MAX_PAYLOAD_CHARS,
        forall|i: int|
            0 <= i < clean_payload(v).len() ==> !crate::text::is_control(#[trigger] clean_payload(v)[i])
                && (clean_payload(v)[i] == ' ' || !crate::text::is_white_space(clean_payload(v)[i])),
        forall|i: int|
            0 <= i < clean_payload(v).len() - 1 && #[trigger] clean_payload(v)[i] == ' '
                ==> clean_payload(v)[i + 1] != ' ',
        clean_payload(v).len() > 0 ==> !crate::text::is_white_space(clean_payload(v)[0])
            && !crate::text::is_white_space(clean_payload(v).last()),
{
    let m = v.map_values(|c: char| scrub(c));
    let t = m.take(if m.len() < MAX_PAYLOAD_CHARS { m.len() as int } else { MAX_PAYLOAD_CHARS as int });
    assert forall|j: int| 0 <= j < t.len() implies !crate::text::is_control(#[trigger] t[j]) by {
        assert(t[j] == m[j]);
        assert(m[j] == scrub(v[j]));
    }
    lemma_words_clean(t);
    lemma_words_shape(t);
}

/// `v` already fits one protocol line: no control character, white space only
/// as single spaces between words, none at either end.
pub open spec fn clean_shaped(v: Seq<char>) -> bool {
    &&& forall|i: int|
        0 <= i < v.len() ==> !crate::text::is_control(#[trigger] v[i]) && (v[i] == ' '
            || !crate::text::is_white_space(v[i]))
    &&& forall|i: int| 0 <= i < v.len() - 1 && #[trigger] v[i] == ' ' ==> v[i + 1] != ' '
    &&& v.len() > 0 ==> v[0] != ' ' && v.last() != ' '
}

proof fn lemma_words_of_clean_prefix(v: Seq<char>, k: int)
    requires
        clean_shaped(v),
        0 <= k <= v.len(),
    ensures
        joined_words(v.take(k)) == (if k > 0 && v[k - 1] == ' ' {
            v.take(k - 1)
        } else {
            v.take(k)
        }),
    decreases k,
{
    if k > 0 {
        let p = v.take(k);
        let q = v.take(k - 1);
        assert(p.drop_last() =~= q);
        assert(p.last() == v[k - 1]);
        lemma_words_of_clean_prefix(v, k - 1);
        let c = v[k - 1];
        if crate::text::is_white_space(c) {
            assert(c == ' ');
            assert(k - 1 > 0);
            assert(v[k - 2] != ' ');
        } else if q.len() > 0 && !crate::text::is_white_space(q.last()) {
            assert(q.last() == v[k - 2]);
            assert(p =~= q.push(c));
        } else if k - 1 == 0 {
            assert(p =~= seq![c]);
        } else {
            assert(q.last() == v[k - 2]);
            assert(v[k - 2] == ' ');
            assert(k - 2 > 0);
            assert(v[k - 3] != ' ');
            assert(q.drop_last() =~= v.take(k - 2));
            assert(v.take(k - 2).len() > 0);
            assert(p =~= v.take(k - 2).push(' ').push(c));
        }
    }
}

/// A payload that already fits one protocol line and has at most 512
/// characters is sent unchanged.
pub proof fn lemma_clean_payload_keeps_clean(v: Seq<char>)
    requires
        v.len() <= 512,
        clean_shaped(v),
    ensures
        clean_payload(v) == v,
{
    let m = v.map_values(|c: char| scrub(c));
    assert(m =~= v);
    assert(m.take(m.len() as int) =~= v);
    lemma_words_of_clean_prefix(v, v.len() as int);
    assert(v.take(v.len() as int) =~= v);
}

/// What the worker writes as a PROGRESS line, the launcher reads back as that
/// message, with the cleaned payload, provided that payload is not empty once
/// cleaned.
pub proof fn lemma_progress_line_read_back(payload: Seq<char>)
    requires
        clean_payload(payload).len() > 0,
    ensures
        message_outcome(protocol_line_spec("PROGRESS"@, payload).push('\n')) == Ok::<
            WorkerMessageView,
            ProtocolError,
        >(WorkerMessageView::Progress(clean_payload(payload))),
{
    reveal_strlit("PROGRESS");
    let kind = "PROGRESS"@;
    assert(forall|j: int| 0 <= j < kind.len() ==> kind[j] != '\t');
    lemma_line_read_back(kind, payload);
}

/// What the worker writes as an ERROR line, the launcher reads back as that
/// message, with the cleaned payload, provided that payload is not empty once
/// cleaned.
pub proof fn lemma_error_line_read_back(payload: Seq<char>)
    requires
        clean_payload(payload).len() > 0,
    ensures
        message_outcome(protocol_line_spec("ERROR"@, payload).push('\n')) == Ok::<
            WorkerMessageView,
            ProtocolError,
        >(WorkerMessageView::Error(clean_payload(payload))),
{
    reveal_strlit("ERROR");
    reveal_strlit("PROGRESS");
    reveal_strlit("READY");
    let kind = "ERROR"@;
    assert(forall|j: int| 0 <= j < kind.len() ==> kind[j] != '\t');
    assert(kind != "PROGRESS"@);
    assert(kind[0] != "READY"@[0]);
    assert(kind != "READY"@);
    lemma_line_read_back(kind, payload);
}

/// A line made of a kind without tabs, a tab and a cleaned, non-empty payload
/// is read back as that kind and that payload.
proof fn lemma_line_read_back(kind: Seq<char>, payload: Seq<char>)
    requires
        clean_payload(payload).len() > 0,
        forall|j: int| 0 <= j < kind.len() ==> kind[j] != '\t',
    ensures
        ({
            let t = trim_line_end(protocol_line_spec(kind, payload).push('\n'));
            &&& has_tab(t)
            &&& (choose|i: int| first_tab_at(t, i)) == kind.len()
            &&& t.subrange(0, kind.len() as int) == kind
            &&& t.subrange(kind.len() as int + 1, t.len() as int) == clean_payload(payload)
        }),
{
    let c = clean_payload(payload);
    let m = payload.map_values(|ch: char| scrub(ch));
    lemma_words_shape(
        m.take(if m.len() < MAX_PAYLOAD_CHARS { m.len() as int } else { MAX_PAYLOAD_CHARS as int }),
    );
    let x = protocol_line_spec(kind, payload);
    assert(x.last() == c.last());
    assert(x.push('\n').drop_last() =~= x);
    assert(trim_line_end(x) == x);
    let t = trim_line_end(x.push('\n'));
    assert(t == x);
    assert(first_tab_at(t, kind.len() as int));
    lemma_first_tab_unique(t, kind.len() as int);
    assert(t.subrange(0, kind.len() as int) =~= kind);
    assert(t.subrange(kind.len() as int + 1, t.len() as int) =~= c);
}

proof fn lemma_trim_line_end(body: Seq<char>, end: Seq<char>)
    requires
        body.len() > 0,
        body.last() != '\r' && body.last() != '\n',
        forall|j: int| 0 <= j < end.len() ==> #[trigger] end[j] == '\r' || end[j] == '\n',
    ensures
        trim_line_end(body + end) == body,
    decreases end.len(),
{
    if end.len() == 0 {
        assert(body + end =~= body);
    } else {
        assert((body + end).drop_last() =~= body + end.drop_last());
        assert((body + end).last() == end.last());
        lemma_trim_line_end(body, end.drop_last());
    }
}

/// The worker protocol's grammar, stated on the line's parts: a kind without
/// tabs, a tab, a non-empty payload (which may hold tabs) and any run of line
/// ends. PROGRESS and ERROR carry the payload as it is; READY carries the
/// socket address its payload names, or is refused as an invalid address;
/// any other kind is unknown. A line without a tab has no separator, and a
/// line whose payload is empty is refused as such.
pub proof fn lemma_worker_line_grammar(kind: Seq<char>, payload: Seq<char>, end: Seq<char>)
    requires
        forall|j: int| 0 <= j < kind.len() ==> #[trigger] kind[j] != '\t',
        forall|j: int| 0 <= j < end.len() ==> #[trigger] end[j] == '\r' || end[j] == '\n',
    ensures
        payload.len() > 0 && payload.last() != '\r' && payload.last() != '\n' ==> {
            let l = kind + seq!['\t'] + payload + end;
            &&& kind == "PROGRESS"@ ==> message_outcome(l) == Ok::<WorkerMessageView, ProtocolError>(
                WorkerMessageView::Progress(payload),
            )
            &&& kind == "ERROR"@ ==> message_outcome(l) == Ok::<WorkerMessageView, ProtocolError>(
                WorkerMessageView::Error(payload),
            )
            &&& kind == "READY"@ ==> message_outcome(l) == match crate::netparse::socket_address_spec(
                payload,
            ) {
                Some(a) => Ok::<WorkerMessageView, ProtocolError>(WorkerMessageView::Ready(a)),
                None => Err::<WorkerMessageView, ProtocolError>(ProtocolError::InvalidAddress),
            }
            &&& kind != "PROGRESS"@ && kind != "ERROR"@ && kind != "READY"@ ==> message_outcome(l)
                == Err::<WorkerMessageView, ProtocolError>(ProtocolError::UnknownKind)
        },
        message_outcome(kind + seq!['\t'] + end) == Err::<WorkerMessageView, ProtocolError>(
            ProtocolError::EmptyPayload,
        ),
        message_outcome(kind + end) == Err::<WorkerMessageView, ProtocolError>(
            ProtocolError::MissingSeparator,
        ),
{
    reveal_strlit("PROGRESS");
    reveal_strlit("READY");
    reveal_strlit("ERROR");
    let h = kind + seq!['\t'];
    assert(h.last() == '\t');
    lemma_trim_line_end(h, end);
    assert(first_tab_at(h, kind.len() as int));
    lemma_first_tab_unique(h, kind.len() as int);
    assert(h.subrange(0, kind.len() as int) =~= kind);
    assert(h.subrange(kind.len() as int + 1, h.len() as int) =~= Seq::<char>::empty());
    if payload.len() > 0 && payload.last() != '\r' && payload.last() != '\n' {
        let b = h + payload;
        assert(b.last() == payload.last());
        lemma_trim_line_end(b, end);
        assert(first_tab_at(b, kind.len() as int)) by {
            assert(b[kind.len() as int] == '\t');
            assert forall|j: int| 0 <= j < kind.len() implies b[j] != '\t' by {
                assert(b[j] == kind[j]);
            }
        }
        lemma_first_tab_unique(b, kind.len() as int);
        assert(b.subrange(0, kind.len() as int) =~= kind);
        assert(b.subrange(kind.len() as int + 1, b.len() as int) =~= payload);
        let l = kind + seq!['\t'] + payload + end;
        assert(l == b + end);
        assert(trim_line_end(l) == b);
        assert(has_tab(b));
        assert((choose|i: int| first_tab_at(b, i)) == kind.len());
        assert("PROGRESS"@.len() == 8 && "READY"@.len() == 5 && "ERROR"@.len() == 5);
        assert("READY"@[0] == 'R' && "ERROR"@[0] == 'E');
        if kind == "ERROR"@ {
            assert(kind != "PROGRESS"@);
            assert(kind[0] != "READY"@[0]);
            assert(kind != "READY"@);
        }
        if kind == "READY"@ {
            assert(kind != "PROGRESS"@);
        }
    }
    lemma_trim_bounded(kind, end);
}

proof fn lemma_trim_bounded(kind: Seq<char>, end: Seq<char>)
    requires
        forall|j: int| 0 <= j < kind.len() ==> #[trigger] kind[j] != '\t',
        forall|j: int| 0 <= j < end.len() ==> #[trigger] end[j] == '\r' || end[j] == '\n',
    ensures
        !has_tab(trim_line_end(kind + end)),
    decreases end.len(),
{
    let x = kind + end;
    lemma_trim_is_prefix(x);
    let t = trim_line_end(x);
    if has_tab(t) {
        let i = choose|i: int| 0 <= i < t.len() && t[i] == '\t';
        assert(t[i] == x[i]);
        if i < kind.len() {
            assert(x[i] == kind[i]);
        } else {
            assert(x[i] == end[i - kind.len()]);
        }
    }
}

proof fn lemma_trim_is_prefix(x: Seq<char>)
    ensures
        trim_line_end(x).len() <= x.len(),
        forall|i: int| 0 <= i < trim_line_end(x).len() ==> #[trigger] trim_line_end(x)[i] == x[i],
    decreases x.len(),
{
    if x.len() > 0 && (x.last() == '\r' || x.last() == '\n') {
        lemma_trim_is_prefix(x.drop_last());
    }
}

/// While the worker starts, only a READY address on the loopback interface
/// (127/8 or `::1`) with a non-zero port is used; progress is shown, an error
/// ends the start, a broken line is refused and the end of output means the
/// worker exited.
pub proof fn lemma_worker_startup(l: Seq<char>)
    ensures
        startup_outcome(None) == StartupStepView::Exited,
        message_outcome(l) matches Ok(WorkerMessageView::Ready(a)) ==> (startup_outcome(Some(l))
            == StartupStepView::Ready(a) <==> a.port != 0 && match a.ip {
            crate::address::IpAddress::V4(o) => o[0] == 127,
            crate::address::IpAddress::V6(g) => g@ == seq![0u16, 0, 0, 0, 0, 0, 0, 1],
        }),
        message_outcome(l) matches Ok(WorkerMessageView::Progress(p)) ==> startup_outcome(Some(l))
            == StartupStepView::Status(p),
        message_outcome(l) matches Ok(WorkerMessageView::Error(p)) ==> startup_outcome(Some(l))
            == StartupStepView::WorkerError(p),
        message_outcome(l) matches Err(e) ==> startup_outcome(Some(l)) == StartupStepView::Refused(e),
{
    if let Ok(WorkerMessageView::Ready(a)) = message_outcome(l) {
        match a.ip {
            crate::address::IpAddress::V4(o) => {
                crate::address::lemma_loopback(o, [0u16, 0, 0, 0, 0, 0, 0, 1]);
            },
            crate::address::IpAddress::V6(g) => {
                crate::address::lemma_loopback([127u8, 0, 0, 1], g);
            },
        }
    }
}

} // verus!
