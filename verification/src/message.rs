//! Messages that a server reads, and their framing. The listener reads a header line `Length: n`,
//! where `n` is the number of bytes that follow, and then the message itself in UTF-8: a request to
//! stop, a command of a client, or a request of the leader. The message that sends a client
//! elsewhere has the same form.
use vstd::prelude::*;
use vstd::utf8::{
    decode_utf8, decode_utf8_encode_utf8, encode_utf8, encode_utf8_decode_utf8,
    encode_utf8_valid_utf8, valid_utf8,
};

use crate::decimal::{
    decimal, law_decimal_read_back, law_digits_are_a_number, number_of, number_value, parse_number,
    to_decimal,
};
use crate::text::{
    find_char, is_white_space, law_trim_keeps_the_core, law_trim_removes_white_space,
    lemma_position_of, lemma_trim_end_keeps, lemma_trim_padded, position_of, same_text, starts_with,
    trim, trim_end_of, trim_of, trim_start_of,
};

verus! {

/// The message that stops a server.
pub const STOP_MSG: &'static str = "STOP";

/// A command of a client, and the line by which the client names it.
pub struct ClientMsg {
    pub uuid: String,
    pub cmd: String,
}

/// The texts of a `ClientMsg`.
pub struct ClientMsgView {
    pub uuid: Seq<char>,
    pub cmd: Seq<char>,
}

impl View for ClientMsg {
    type V = ClientMsgView;

    open spec fn view(&self) -> ClientMsgView {
        ClientMsgView { uuid: self.uuid@, cmd: self.cmd@ }
    }
}

/// Whether `msg` stops a server.
pub open spec fn is_stop(msg: Seq<char>) -> bool {
    msg == "STOP"@
}

/// Whether `msg` is a command of a client.
pub open spec fn is_client_cmd(msg: Seq<char>) -> bool {
    "Uuid: "@.is_prefix_of(trim_of(msg))
}

/// The client command in `msg`: its first line names it, what follows that line is the command.
/// A message of one line holds none.
pub open spec fn client_msg_of(msg: Seq<char>) -> Option<ClientMsgView> {
    if msg.contains('\n') {
        let end = position_of(msg, '\n') as int;
        Some(ClientMsgView { uuid: trim_of(msg.take(end)), cmd: trim_of(msg.skip(end + 1)) })
    } else {
        None
    }
}

/// The number that a header line gives: `Length:` and, with no other colon in the line, a number.
pub open spec fn content_length_of(line: Seq<char>) -> Option<nat> {
    if "Length:"@.is_prefix_of(line) && !line.skip(7).contains(':') {
        number_of(trim_of(line.skip(7)))
    } else {
        None
    }
}

/// The header line of a message of `n` bytes.
pub open spec fn length_header(n: nat) -> Seq<char> {
    "Length: "@ + decimal(n) + "\n"@
}

/// The message `body` as it is sent.
pub open spec fn framed(body: Seq<char>) -> Seq<char> {
    length_header(encode_utf8(body).len()) + body
}

/// The message that a header line and the bytes after it make: there are as many bytes as the
/// header line says, and they are UTF-8.
pub open spec fn message_of(line: Seq<char>, received: Seq<u8>) -> Option<Seq<char>> {
    if content_length_of(line) == Some(received.len()) && valid_utf8(received) {
        Some(decode_utf8(received))
    } else {
        None
    }
}

/// Why a message could not be read.
pub enum NetworkMsgError {
    /// The header line gives no length.
    LengthNotParsable { line: String },
    /// The bytes that were read are not as many as the header line says.
    WrongByteCount { expected: usize, read: usize },
    /// The bytes that were read are not UTF-8.
    NotUtf8,
}

/// The kind of an error.
#[derive(Clone, Copy, Debug, PartialEq, Eq, Structural)]
pub enum NetworkMsgErrorKind {
    /// What was read is not in the form of a message.
    InvalidInput,
}

/// Tells the message that stops a server from all others.
pub fn is_stop_msg(s: &str) -> (r: bool)
    ensures
        r == is_stop(s@),
{
    same_text(s, STOP_MSG)
}

/// Tells the commands of clients from other messages.
pub fn is_cmd_from_client(msg: &str) -> (r: bool)
    ensures
        r == is_client_cmd(msg@),
{
    starts_with(trim(msg), "Uuid: ")
}

/// Takes a client command apart.
pub fn create_client_msg(msg: &str) -> (r: Option<ClientMsg>)
    ensures
        match r {
            Some(m) => {
                &&& client_msg_of(msg@) == Some(m@)
                &&& m@ == (ClientMsgView { uuid: m.uuid@, cmd: m.cmd@ })
            },
            None => client_msg_of(msg@) is None,
        },
{
    match find_char(msg, '\n') {
        None => None,
        Some(end) => {
            let len: usize = msg.unicode_len();
            let first: &str = msg.substring_char(0, end);
            let rest: &str = msg.substring_char(end + 1, len);
            assert(msg@.contains('\n'));
            assert(first@ =~= msg@.take(end as int));
            assert(rest@ =~= msg@.skip(end + 1));
            Some(ClientMsg { uuid: trim(first).to_owned(), cmd: trim(rest).to_owned() })
        },
    }
}

/// Reads the number in the header line of a message, which has the form `Length: NN`.
pub fn parse_content_length(len_line: &str) -> (r: Option<usize>)
    ensures
        match r {
            Some(n) => content_length_of(len_line@) == Some(n as nat),
            None => content_length_of(len_line@) is None,
        },
{
    proof {
        reveal_strlit("Length:");
    }
    if !starts_with(len_line, "Length:") {
        return None;
    }
    let len: usize = len_line.unicode_len();
    let rest: &str = len_line.substring_char(7, len);
    assert(rest@ =~= len_line@.skip(7));
    match find_char(rest, ':') {
        Some(_p) => None,
        None => parse_number(trim(rest)),
    }
}

/// Puts the header line in front of a message.
pub fn frame_msg(body: &str) -> (r: String)
    ensures
        r@ == framed(body@),
{
    let len: usize = body.as_bytes().len();
    "Length: ".to_owned().concat(to_decimal(len).as_str()).concat("\n").concat(body)
}

/// Calls `std::str::from_utf8`. It is taken to accept exactly the byte sequences that are UTF-8
/// encodings, and to give the characters that they encode.
#[verifier::external_body]
fn text_from_utf8(bytes: &[u8]) -> (r: Option<String>)
    ensures
        match r {
            Some(s) => valid_utf8(bytes@) && s@ == decode_utf8(bytes@),
            None => !valid_utf8(bytes@),
        },
{
    match std::str::from_utf8(bytes) {
        Ok(s) => Some(s.to_owned()),
        Err(_) => None,
    }
}

/// Whether `r` is what is read from the header line `line` and the bytes `received` after it.
pub open spec fn is_reading(
    line: Seq<char>,
    received: Seq<u8>,
    r: Result<String, NetworkMsgError>,
) -> bool {
    match r {
        Ok(msg) => message_of(line, received) == Some(msg@),
        Err(NetworkMsgError::LengthNotParsable { line: text }) => {
            &&& content_length_of(line) is None
            &&& text@ == line
        },
        Err(NetworkMsgError::WrongByteCount { expected, read }) => {
            &&& content_length_of(line) == Some(expected as nat)
            &&& read == received.len()
            &&& read != expected
        },
        Err(NetworkMsgError::NotUtf8) => {
            &&& content_length_of(line) == Some(received.len())
            &&& !valid_utf8(received)
        },
    }
}

/// Reads a message from its header line and from the bytes that reading on, up to as many as the
/// header line says, has brought.
pub fn read_network_msg(length_hdr: &str, received: &[u8]) -> (r: Result<String, NetworkMsgError>)
    ensures
        is_reading(length_hdr@, received@, r),
        match r {
            Ok(msg) => message_of(length_hdr@, received@) == Some(msg@),
            Err(NetworkMsgError::LengthNotParsable { line }) => {
                &&& content_length_of(length_hdr@) is None
                &&& line@ == length_hdr@
            },
            Err(NetworkMsgError::WrongByteCount { expected, read }) => {
                &&& content_length_of(length_hdr@) == Some(expected as nat)
                &&& read == received@.len()
                &&& read != expected
            },
            Err(NetworkMsgError::NotUtf8) => {
                &&& content_length_of(length_hdr@) == Some(received@.len())
                &&& !valid_utf8(received@)
            },
        },
{
    match parse_content_length(length_hdr) {
        None => Err(NetworkMsgError::LengthNotParsable { line: length_hdr.to_owned() }),
        Some(length) => {
            let nread: usize = received.len();
            if nread != length {
                return Err(NetworkMsgError::WrongByteCount { expected: length, read: nread });
            }
            match text_from_utf8(received) {
                Some(s) => Ok(s),
                None => Err(NetworkMsgError::NotUtf8),
            }
        },
    }
}

impl NetworkMsgError {
    /// What went wrong, in general terms.
    pub open spec fn desc_of(self) -> Seq<char> {
        match self {
            NetworkMsgError::LengthNotParsable { .. } => "Length not parsable in network message"@,
            NetworkMsgError::WrongByteCount { .. } =>
                "Network message read of specified bytes failed"@,
            NetworkMsgError::NotUtf8 =>
                "Conversion of Network message from bytes to str failed"@,
        }
    }

    /// The particulars, where there are any.
    pub open spec fn detail_of(self) -> Option<Seq<char>> {
        match self {
            NetworkMsgError::LengthNotParsable { line } => Some("length line parsed: "@ + line@),
            NetworkMsgError::WrongByteCount { expected, read } => Some(
                "Expected "@ + decimal(expected as nat) + " bytes, but read "@ + decimal(
                    read as nat,
                ) + " bytes"@,
            ),
            NetworkMsgError::NotUtf8 => None,
        }
    }

    /// Gives the kind of the error: it lies in what was read.
    pub fn kind(&self) -> (r: NetworkMsgErrorKind)
        ensures
            r == NetworkMsgErrorKind::InvalidInput,
    {
        NetworkMsgErrorKind::InvalidInput
    }

    /// Says what went wrong, in general terms.
    pub fn desc(&self) -> (r: &'static str)
        ensures
            r@ == self.desc_of(),
    {
        match self {
            NetworkMsgError::LengthNotParsable { line: _ } =>
                "Length not parsable in network message",
            NetworkMsgError::WrongByteCount { expected: _, read: _ } =>
                "Network message read of specified bytes failed",
            NetworkMsgError::NotUtf8 =>
                "Conversion of Network message from bytes to str failed",
        }
    }

    /// Gives the particulars, where there are any.
    pub fn detail(&self) -> (r: Option<String>)
        ensures
            match r {
                Some(s) => self.detail_of() == Some(s@),
                None => self.detail_of() is None,
            },
    {
        match self {
            NetworkMsgError::LengthNotParsable { line } => {
                Some("length line parsed: ".to_owned().concat(line.as_str()))
            },
            NetworkMsgError::WrongByteCount { expected, read } => {
                let head: String = "Expected ".to_owned().concat(to_decimal(*expected).as_str());
                let tail: String = head.concat(" bytes, but read ");
                Some(tail.concat(to_decimal(*read).as_str()).concat(" bytes"))
            },
            NetworkMsgError::NotUtf8 => None,
        }
    }
}

/// The message that stops a server is no command of a client.
pub proof fn law_stop_is_no_client_cmd(msg: Seq<char>)
    requires
        is_stop(msg),
    ensures
        !is_client_cmd(msg),
{
    reveal_strlit("STOP");
    reveal_strlit("Uuid: ");
    assert(trim_of(msg) == msg);
}

/// A message that begins with a brace, as a JSON object does, is neither a request to stop nor a
/// command of a client.
pub proof fn law_object_is_neither(msg: Seq<char>)
    requires
        msg.len() > 0,
        msg.first() == '{',
    ensures
        !is_stop(msg),
        !is_client_cmd(msg),
{
    reveal_strlit("STOP");
    reveal_strlit("Uuid: ");
    lemma_trim_end_keeps(msg, 0);
    assert(trim_of(msg)[0] == '{');
    if is_client_cmd(msg) {
        assert("Uuid: "@[0] == trim_of(msg).take(6)[0]);
    }
}

/// The header line of a message of `n` bytes gives `n` back, and ends where its first newline
/// stands.
pub proof fn law_length_header_read_back(n: nat)
    requires
        n <= usize::MAX,
    ensures
        content_length_of(length_header(n)) == Some(n),
        position_of(length_header(n), '\n') == length_header(n).len() - 1,
        length_header(n).last() == '\n',
{
    reveal_strlit("Length:");
    reveal_strlit("Length: ");
    reveal_strlit("\n");
    let line = length_header(n);
    law_decimal_read_back(n);
    assert("Length:"@ =~= line.take(7));
    assert(line.skip(7) =~= seq![' '] + decimal(n) + seq!['\n']);
    assert forall|i: int| 0 <= i < line.skip(7).len() implies line.skip(7)[i] != ':' by {
        if 1 <= i < 1 + decimal(n).len() {
            assert(line.skip(7)[i] == decimal(n)[i - 1]);
        }
    }
    assert(decimal(n).first() == decimal(n)[0]);
    assert(decimal(n).last() == decimal(n)[decimal(n).len() - 1]);
    lemma_trim_padded(' ', decimal(n), '\n');
    assert forall|i: int| 0 <= i < line.len() - 1 implies line[i] != '\n' by {
        if 8 <= i {
            assert(line[i] == decimal(n)[i - 8]);
        }
    }
    lemma_position_of(line, '\n', line.len() - 1);
}

/// What is sent is read: the first line of a framed message is a header line, the message
/// follows it, in the text as in the bytes, and from that line and the bytes after it the message
/// is read back.
pub proof fn law_framed_message_read_back(body: Seq<char>)
    requires
        encode_utf8(body).len() <= usize::MAX,
    ensures
        ({
            let end = position_of(framed(body), '\n') as int;
            let line = framed(body).take(end + 1);
            &&& framed(body).skip(end + 1) == body
            &&& encode_utf8(framed(body)) == encode_utf8(line) + encode_utf8(body)
            &&& message_of(line, encode_utf8(body)) == Some(body)
        }),
{
    let n = encode_utf8(body).len();
    let header = length_header(n);
    law_length_header_read_back(n);
    encode_utf8_valid_utf8(body);
    encode_utf8_decode_utf8(body);
    assert(framed(body).take(header.len() as int) =~= header);
    assert(framed(body).skip(header.len() as int) =~= body);
    assert(framed(body)[header.len() - 1] == '\n');
    lemma_first_position_of_concat(header, body);
    lemma_encode_concat(header, body);
}

/// The encoding of two texts in a row is the two encodings in a row.
proof fn lemma_encode_concat(a: Seq<char>, b: Seq<char>)
    ensures
        encode_utf8(a + b) == encode_utf8(a) + encode_utf8(b),
    decreases a.len(),
{
    if a.len() == 0 {
        assert(a + b =~= b);
        assert(encode_utf8(a) + encode_utf8(b) =~= encode_utf8(b));
    } else {
        lemma_encode_concat(a.drop_first(), b);
        assert((a + b).drop_first() =~= a.drop_first() + b);
        assert(encode_utf8(a + b) =~= encode_utf8(a) + encode_utf8(b));
    }
}

/// A newline that ends `a`, and is its first, is the first in anything that begins with `a`.
proof fn lemma_first_position_of_concat(a: Seq<char>, b: Seq<char>)
    requires
        a.len() > 0,
        a.last() == '\n',
        position_of(a, '\n') == a.len() - 1,
    ensures
        position_of(a + b, '\n') == a.len() - 1,
    decreases a.len(),
{
    if a.len() > 1 {
        assert((a + b).drop_first() =~= a.drop_first() + b);
        assert(a.first() != '\n');
        lemma_first_position_of_concat(a.drop_first(), b);
    }
}

/// A client's command line by line: a line `Uuid: ` with a name, and the command on the lines
/// after it. Such a message is a client command, and no request to stop, and it is taken apart at
/// the end of its first line.
pub proof fn law_client_cmd_recognised(uuid: Seq<char>, cmd: Seq<char>)
    requires
        !uuid.contains('\n'),
        exists|i: int| 0 <= i < uuid.len() && !is_white_space(#[trigger] uuid[i]),
    ensures
        ({
            let msg = "Uuid: "@ + uuid + "\n"@ + cmd;
            &&& is_client_cmd(msg)
            &&& !is_stop(msg)
            &&& client_msg_of(msg) == Some(
                ClientMsgView { uuid: trim_of("Uuid: "@ + uuid), cmd: trim_of(cmd) },
            )
        }),
{
    reveal_strlit("STOP");
    reveal_strlit("Uuid: ");
    reveal_strlit("\n");
    let msg = "Uuid: "@ + uuid + "\n"@ + cmd;
    let i = choose|i: int| 0 <= i < uuid.len() && !is_white_space(#[trigger] uuid[i]);
    assert(msg[6 + i] == uuid[i]);
    assert(msg.first() == 'U');
    lemma_trim_end_keeps(msg, 6 + i);
    let trimmed = trim_of(msg);
    assert("Uuid: "@ =~= trimmed.take(6));
    let end = 6 + uuid.len() as int;
    assert(msg[end] == '\n');
    assert forall|k: int| 0 <= k < end implies msg[k] != '\n' by {
        if 6 <= k {
            assert(msg[k] == uuid[k - 6]);
            assert(uuid.contains(uuid[k - 6]));
        }
    }
    lemma_position_of(msg, '\n', end);
    assert(msg.take(end) =~= "Uuid: "@ + uuid);
    assert(msg.skip(end + 1) =~= cmd);
    assert(msg[0] != "STOP"@[0]);
}

/// The message that stops a server is the four letters S, T, O and P, and nothing else.
pub proof fn law_stop_text(msg: Seq<char>)
    ensures
        is_stop(msg) <==> msg == seq!['S', 'T', 'O', 'P'],
{
    reveal_strlit("STOP");
    assert("STOP"@ =~= seq!['S', 'T', 'O', 'P']);
}

/// The view of a client command is its two texts.
pub proof fn law_client_msg_view(m: ClientMsg)
    ensures
        m@.uuid == m.uuid@,
        m@.cmd == m.cmd@,
{
}

/// A message is a client command if, but for white space, it begins with `Uuid: ` and something
/// follows.
pub proof fn law_uuid_makes_a_client_cmd(a: Seq<char>, rest: Seq<char>)
    requires
        forall|i: int| 0 <= i < a.len() ==> is_white_space(#[trigger] a[i]),
        exists|i: int| 0 <= i < rest.len() && !is_white_space(#[trigger] rest[i]),
    ensures
        is_client_cmd(a + seq!['U', 'u', 'i', 'd', ':', ' '] + rest),
    decreases a.len(),
{
    reveal_strlit("Uuid: ");
    let word = seq!['U', 'u', 'i', 'd', ':', ' '];
    assert("Uuid: "@ =~= word);
    let msg = a + word + rest;
    if a.len() > 0 {
        let less = a.drop_first();
        assert(msg.first() == a[0]);
        assert(msg.drop_first() =~= less + word + rest);
        assert forall|i: int| 0 <= i < less.len() implies is_white_space(#[trigger] less[i]) by {
            assert(less[i] == a[i + 1]);
        }
        law_uuid_makes_a_client_cmd(less, rest);
        assert(trim_start_of(msg) == trim_start_of(less + word + rest));
    } else {
        let i = choose|i: int| 0 <= i < rest.len() && !is_white_space(#[trigger] rest[i]);
        assert(msg.first() == 'U');
        assert(trim_start_of(msg) == msg);
        assert(msg[6 + i] == rest[i]);
        lemma_trim_end_keeps(msg, 6 + i);
        let t = trim_end_of(msg);
        assert(word =~= t.take(6));
    }
}

/// A message is a client command only if, but for white space, it begins with `Uuid: ` and
/// something follows.
pub proof fn law_client_cmd_has_uuid(msg: Seq<char>)
    requires
        is_client_cmd(msg),
    ensures
        exists|n: int|
            0 <= n && n + 6 < msg.len() && seq!['U', 'u', 'i', 'd', ':', ' '].is_prefix_of(
                #[trigger] msg.skip(n),
            ) && (forall|k: int| 0 <= k < n ==> is_white_space(#[trigger] msg[k])) && (exists|
                k: int,
            | n + 6 <= k < msg.len() && !is_white_space(#[trigger] msg[k])),
{
    reveal_strlit("Uuid: ");
    let word = seq!['U', 'u', 'i', 'd', ':', ' '];
    assert("Uuid: "@ =~= word);
    law_trim_removes_white_space(msg);
    let (i, j) = choose|i: int, j: int|
        0 <= i <= j <= msg.len() && trim_of(msg) == #[trigger] msg.subrange(i, j) && (forall|k: int|
            0 <= k < i || j <= k < msg.len() ==> is_white_space(#[trigger] msg[k])) && (i < j ==>
            !is_white_space(msg[i]) && !is_white_space(msg[j - 1]));
    let t = trim_of(msg);
    assert(t.len() == j - i);
    assert forall|k: int| 0 <= k < 6 implies #[trigger] msg[i + k] == word[k] by {
        assert(t.subrange(0, 6)[k] == word[k]);
    }
    assert(msg[i + 5] == ' ');
    assert(j > i + 6);
    assert(word =~= msg.skip(i).subrange(0, 6));
    assert(!is_white_space(msg[j - 1]));
}

/// A client command is taken apart at its first newline: what stands before it names the command,
/// what stands after it is the command, both without white space at their ends.
pub proof fn law_client_msg_is_split_once(first: Seq<char>, rest: Seq<char>)
    requires
        forall|i: int| 0 <= i < first.len() ==> #[trigger] first[i] != '\n',
    ensures
        client_msg_of(first + seq!['\n'] + rest) == Some(
            ClientMsgView { uuid: trim_of(first), cmd: trim_of(rest) },
        ),
        client_msg_of(first) is None,
{
    let msg = first + seq!['\n'] + rest;
    let end = first.len() as int;
    assert(msg[end] == '\n');
    assert forall|i: int| 0 <= i < end implies msg[i] != '\n' by {
        assert(msg[i] == first[i]);
    }
    lemma_position_of(msg, '\n', end);
    assert(msg.take(end) =~= first);
    assert(msg.skip(end + 1) =~= rest);
}

/// `Length:` with digits after it, and white space around these, gives the value of the digits.
pub proof fn law_length_line_gives_its_number(a: Seq<char>, digits: Seq<char>, b: Seq<char>)
    requires
        forall|i: int| 0 <= i < a.len() ==> is_white_space(#[trigger] a[i]),
        forall|i: int| 0 <= i < b.len() ==> is_white_space(#[trigger] b[i]),
        digits.len() > 0,
        forall|i: int| 0 <= i < digits.len() ==> '0' <= #[trigger] digits[i] <= '9',
        number_value(digits) <= usize::MAX,
    ensures
        content_length_of(seq!['L', 'e', 'n', 'g', 't', 'h', ':'] + (a + digits + b)) == Some(
            number_value(digits),
        ),
{
    reveal_strlit("Length:");
    let word = seq!['L', 'e', 'n', 'g', 't', 'h', ':'];
    let tail = a + digits + b;
    let line = word + tail;
    assert("Length:"@ =~= word);
    assert(word =~= line.take(7));
    assert(line.skip(7) =~= tail);
    assert forall|i: int| 0 <= i < tail.len() implies #[trigger] tail[i] != ':' by {
        if i < a.len() {
            assert(tail[i] == a[i]);
        } else if i < a.len() + digits.len() {
            assert(tail[i] == digits[i - a.len()]);
        } else {
            assert(tail[i] == b[i - a.len() - digits.len()]);
        }
    }
    law_trim_keeps_the_core(a, digits, b);
    law_digits_are_a_number(digits);
}

/// A line that gives a length begins with `Length:`, has no other colon, and gives the number that
/// the rest of it, without white space at its ends, notes.
pub proof fn law_length_line_has_its_form(line: Seq<char>)
    ensures
        content_length_of(line) is Some ==> {
            &&& line.len() > 7
            &&& line.take(7) == seq!['L', 'e', 'n', 'g', 't', 'h', ':']
            &&& forall|i: int| 7 <= i < line.len() ==> #[trigger] line[i] != ':'
            &&& content_length_of(line) == number_of(trim_of(line.skip(7)))
        },
        line.len() >= 7 && line.take(7) == seq!['L', 'e', 'n', 'g', 't', 'h', ':'] && (forall|i:
            int| 7 <= i < line.len() ==> #[trigger] line[i] != ':') ==> content_length_of(line)
            == number_of(trim_of(line.skip(7))),
{
    reveal_strlit("Length:");
    let word = seq!['L', 'e', 'n', 'g', 't', 'h', ':'];
    assert("Length:"@ =~= word);
    let tail = line.skip(7);
    if content_length_of(line) is Some {
        assert(line.subrange(0, 7) =~= line.take(7));
        assert forall|i: int| 7 <= i < line.len() implies #[trigger] line[i] != ':' by {
            assert(tail[i - 7] == line[i]);
            assert(tail.contains(tail[i - 7]));
        }
        if line.len() == 7 {
            assert(tail.len() == 0);
            assert(trim_of(tail).len() == 0);
        }
    }
    if line.len() >= 7 && line.take(7) == word && (forall|i: int|
        7 <= i < line.len() ==> #[trigger] line[i] != ':') {
        assert(line.subrange(0, 7) =~= line.take(7));
        assert forall|i: int| 0 <= i < tail.len() implies #[trigger] tail[i] != ':' by {
            assert(tail[i] == line[i + 7]);
        }
    }
}

/// A message is framed by the number of its bytes, in decimal, in a line of its own.
pub proof fn law_framed_has_its_form(body: Seq<char>)
    ensures
        framed(body) == seq!['L', 'e', 'n', 'g', 't', 'h', ':', ' '] + decimal(
            encode_utf8(body).len(),
        ) + seq!['\n'] + body,
{
    reveal_strlit("Length: ");
    reveal_strlit("\n");
    assert("Length: "@ =~= seq!['L', 'e', 'n', 'g', 't', 'h', ':', ' ']);
    assert("\n"@ =~= seq!['\n']);
}

/// What is read is the message whose encoding the bytes are, if they are as many as the header line
/// says, and nothing is read otherwise.
pub proof fn law_message_is_what_the_bytes_encode(
    line: Seq<char>,
    received: Seq<u8>,
    msg: Seq<char>,
)
    ensures
        message_of(line, received) == Some(msg) <==> content_length_of(line) == Some(received.len())
            && encode_utf8(msg) == received,
{
    if message_of(line, received) == Some(msg) {
        decode_utf8_encode_utf8(received);
    }
    if encode_utf8(msg) == received {
        encode_utf8_valid_utf8(msg);
        encode_utf8_decode_utf8(msg);
    }
}

/// The particulars of an error name the line that was read, or the two numbers of bytes.
pub proof fn law_detail_names_the_particulars(e: NetworkMsgError)
    ensures
        match e {
            NetworkMsgError::LengthNotParsable { line } => e.detail_of() == Some(
                "length line parsed: "@ + line@,
            ) && e.desc_of() == "Length not parsable in network message"@,
            NetworkMsgError::WrongByteCount { expected, read } => e.detail_of() == Some(
                "Expected "@ + decimal(expected as nat) + " bytes, but read "@ + decimal(
                    read as nat,
                ) + " bytes"@,
            ) && e.desc_of() == "Network message read of specified bytes failed"@,
            NetworkMsgError::NotUtf8 => e.detail_of() is None && e.desc_of()
                == "Conversion of Network message from bytes to str failed"@,
        },
{
}

/// A message that was sent is received, and no other, once all its bytes have come. If fewer or
/// more have come it is refused, and the error says how many there should be and how many came.
pub proof fn law_sent_message_is_received(
    body: Seq<char>,
    received: Seq<u8>,
    r: Result<String, NetworkMsgError>,
)
    requires
        encode_utf8(body).len() <= usize::MAX,
        is_reading(length_header(encode_utf8(body).len()), received, r),
    ensures
        received == encode_utf8(body) ==> (r matches Ok(msg) && msg@ == body),
        received.len() != encode_utf8(body).len() ==> (r matches Err(
            NetworkMsgError::WrongByteCount { expected, read },
        ) && expected == encode_utf8(body).len() && read == received.len()),
{
    law_length_header_read_back(encode_utf8(body).len());
    encode_utf8_valid_utf8(body);
    encode_utf8_decode_utf8(body);
}

/// What is read encodes to the bytes that were received. What cannot be read is refused for one
/// reason: the line that was read gives no length, the bytes are not as many as it says, or they
/// encode no text.
pub proof fn law_each_refusal_has_its_reason(
    line: Seq<char>,
    received: Seq<u8>,
    r: Result<String, NetworkMsgError>,
)
    requires
        is_reading(line, received, r),
    ensures
        match r {
            Ok(msg) => encode_utf8(msg@) == received && content_length_of(line) == Some(
                received.len(),
            ),
            Err(NetworkMsgError::LengthNotParsable { line: text }) => content_length_of(line)
                is None && text@ == line,
            Err(NetworkMsgError::WrongByteCount { expected, read }) => content_length_of(line)
                == Some(expected as nat) && read == received.len() && expected != read,
            Err(NetworkMsgError::NotUtf8) => content_length_of(line) == Some(received.len())
                && forall|msg: Seq<char>| #[trigger] encode_utf8(msg) != received,
        },
{
    match r {
        Ok(msg) => {
            law_message_is_what_the_bytes_encode(line, received, msg@);
        },
        Err(NetworkMsgError::NotUtf8) => {
            assert forall|msg: Seq<char>| #[trigger] encode_utf8(msg) != received by {
                encode_utf8_valid_utf8(msg);
            }
        },
        _ => {},
    }
}

} // verus!
