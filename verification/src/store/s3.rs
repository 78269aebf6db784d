//! What an S3 bucket is asked, and what its answers mean.

use vstd::prelude::*;

use crate::error::Error;
use crate::store::api;
use crate::store::api::PutOutcome;
use crate::text;

verus! {

/// Objects up to this size are written by a single request; larger ones in
/// parts.
pub const MULTIPART_THRESHOLD: usize = 8_388_608;

/// The size of a part. Every part but the last has to have at least five
/// mebibytes.
pub const PART_SIZE: usize = 8_388_608;

// ---------------------------------------------------------------------------
// Keys and etags
// ---------------------------------------------------------------------------

/// An etag without the quotes around it.
pub open spec fn unquoted(etag: Seq<char>) -> Seq<char> {
    text::trim_end(text::trim_start(etag, '"'), '"')
}

/// An etag without the quotes around it.
pub fn strip_quotes(etag: &str) -> (r: String)
    ensures
        r@ == unquoted(etag@),
{
    let front = text::trim_start_text(etag, '"');
    text::trim_end_text(front.as_str(), '"')
}

/// An entity tag is read without the quotes around it.
pub proof fn law_quotes_are_taken_off(tag: Seq<char>)
    requires
        tag.len() > 0,
        tag[0] != '"',
        tag.last() != '"',
    ensures
        unquoted(seq!['"'] + tag + seq!['"']) == tag,
        unquoted(tag) == tag,
{
    let all = seq!['"'] + tag + seq!['"'];
    assert(all[0] == '"');
    let rest = all.drop_first();
    assert(rest =~= tag + seq!['"']);
    assert(rest[0] == tag[0]);
    assert(text::trim_start(all, '"') == text::trim_start(rest, '"'));
    assert(text::trim_start(rest, '"') == rest);
    assert(rest.last() == '"');
    assert(rest.drop_last() =~= tag);
    assert(text::trim_end(rest, '"') == text::trim_end(tag, '"'));
}

/// Whether a byte of a key stands for itself in a copy source.
pub open spec fn is_plain(b: u8) -> bool {
    ||| 'A' as u8 <= b <= 'Z' as u8
    ||| 'a' as u8 <= b <= 'z' as u8
    ||| '0' as u8 <= b <= '9' as u8
    ||| b == '-' as u8
    ||| b == '.' as u8
    ||| b == '_' as u8
    ||| b == '~' as u8
    ||| b == '/' as u8
}

/// An upper-case hexadecimal digit.
pub open spec fn hex_digit(d: int) -> char {
    if d < 10 {
        (48 + d) as char
    } else {
        (55 + d) as char
    }
}

/// How a byte of a key is written in a copy source.
pub open spec fn encoded_byte(b: u8) -> Seq<char> {
    if is_plain(b) {
        seq![b as char]
    } else {
        seq!['%', hex_digit(b as int / 16), hex_digit(b as int % 16)]
    }
}

/// How the bytes of a key are written in a copy source.
pub open spec fn encoded(bytes: Seq<u8>) -> Seq<char>
    decreases bytes.len(),
{
    if bytes.len() == 0 {
        Seq::empty()
    } else {
        encoded(bytes.drop_last()) + encoded_byte(bytes.last())
    }
}

/// What a hexadecimal digit stands for.
pub open spec fn digit_value(c: char) -> int {
    if '0' <= c <= '9' {
        c as int - '0' as int
    } else if 'A' <= c <= 'F' {
        c as int - 'A' as int + 10
    } else {
        -1
    }
}

/// A byte that needs no encoding is written as it is, and any other as `%` and two
/// digits that stand for it.
pub proof fn law_encoded_byte_stands_for_the_byte(b: u8)
    ensures
        encoded_byte(b).len() == 1 ==> encoded_byte(b)[0] as int == b,
        encoded_byte(b).len() != 1 ==> encoded_byte(b).len() == 3 && encoded_byte(b)[0] == '%'
            && digit_value(encoded_byte(b)[1]) * 16 + digit_value(encoded_byte(b)[2]) == b,
        encoded_byte(b).len() == 1 <==> {
            ||| 'a' as int <= b <= 'z' as int
            ||| 'A' as int <= b <= 'Z' as int
            ||| '0' as int <= b <= '9' as int
            ||| b == '-' as int
            ||| b == '.' as int
            ||| b == '_' as int
            ||| b == '~' as int
            ||| b == '/' as int
        },
{
}

/// A key is encoded byte by byte.
pub proof fn law_key_is_encoded_byte_by_byte(a: Seq<u8>, b: Seq<u8>)
    ensures
        encoded(a + b) == encoded(a) + encoded(b),
        a.len() == 1 ==> encoded(a) == encoded_byte(a[0]),
    decreases b.len(),
{
    if b.len() == 0 {
        assert(a + b =~= a);
        assert(encoded(a) + encoded(b) =~= encoded(a));
    } else {
        let front = b.drop_last();
        law_key_is_encoded_byte_by_byte(a, front);
        assert((a + b).drop_last() =~= a + front);
        assert(encoded(a + b) =~= encoded(a) + encoded(b));
    }
    if a.len() == 1 {
        assert(a.drop_last() =~= Seq::<u8>::empty());
        assert(encoded(Seq::<u8>::empty()) =~= Seq::<char>::empty());
        assert(encoded(a) =~= encoded_byte(a[0]));
    }
}

/// An upper-case hexadecimal digit.
fn hex_char(d: u8) -> (c: char)
    requires
        d < 16,
    ensures
        c == hex_digit(d as int),
{
    if d < 10 {
        (48u8 + d) as char
    } else {
        (55u8 + d) as char
    }
}

/// Percent-encodes a key for use in a copy source, leaving separators and
/// unreserved characters as they are.
pub fn encode_key(key: &str) -> (r: String)
    ensures
        r@ == encoded(vstd::utf8::encode_utf8(key@)),
{
    let bytes = key.as_bytes();
    let mut out = String::new();
    let mut i: usize = 0;
    proof {
        assert(bytes@.take(0) =~= Seq::<u8>::empty());
    }
    while i < bytes.len()
        invariant
            i <= bytes@.len(),
            out@ == encoded(bytes@.take(i as int)),
        decreases bytes@.len() - i,
    {
        let b: u8 = bytes[i];
        let ghost before = out@;
        proof {
            assert(bytes@.take(i + 1).drop_last() =~= bytes@.take(i as int));
        }
        let plain: bool = (65 <= b && b <= 90) || (97 <= b && b <= 122) || (48 <= b && b <= 57) || b
            == 45 || b == 46 || b == 95 || b == 126 || b == 47;
        if plain {
            out.push(b as char);
            proof {
                assert(out@ =~= before + seq![b as char]);
            }
        } else {
            out.push('%');
            out.push(hex_char(b / 16));
            out.push(hex_char(b % 16));
            proof {
                assert(out@ =~= before + encoded_byte(b));
            }
        }
        i = i + 1;
    }
    proof {
        assert(bytes@.take(bytes@.len() as int) =~= bytes@);
    }
    out
}

/// Whether a character may stand in a copy source as it is.
pub open spec fn is_safe(c: char) -> bool {
    c == '%' || (c as int <= 127 && is_plain(c as u8))
}

/// An encoded key holds nothing that would have to be encoded.
pub proof fn law_encoded_key_is_safe(bytes: Seq<u8>)
    ensures
        forall|i: int| 0 <= i < encoded(bytes).len() ==> is_safe(#[trigger] encoded(bytes)[i]),
    decreases bytes.len(),
{
    if bytes.len() > 0 {
        law_encoded_key_is_safe(bytes.drop_last());
        let front = encoded(bytes.drop_last());
        let b = bytes.last();
        let tail = encoded_byte(b);
        assert forall|i: int| 0 <= i < encoded(bytes).len() implies is_safe(
            #[trigger] encoded(bytes)[i],
        ) by {
            if i < front.len() {
                assert(encoded(bytes)[i] == front[i]);
            } else {
                assert(encoded(bytes)[i] == tail[i - front.len()]);
            }
        }
    }
}

/// Reading back one encoded byte from the end of an encoded key.
proof fn lemma_last_byte(a: Seq<u8>, b: Seq<u8>)
    requires
        a.len() > 0,
        b.len() > 0,
        encoded(a) == encoded(b),
    ensures
        a.last() == b.last(),
        encoded(a.drop_last()) == encoded(b.drop_last()),
{
    let x = encoded_byte(a.last());
    let y = encoded_byte(b.last());
    let p = encoded(a.drop_last());
    let q = encoded(b.drop_last());
    let s = encoded(a);
    assert(s =~= p + x);
    assert(s =~= q + y);
    law_percent_starts_triple(a);
    law_percent_starts_triple(b);
    if x.len() == y.len() {
        assert(p.len() == q.len());
        assert forall|i: int| 0 <= i < x.len() implies x[i] == y[i] by {
            assert(s[p.len() + i] == x[i]);
            assert(s[q.len() + i] == y[i]);
        }
        assert forall|i: int| 0 <= i < p.len() implies p[i] == q[i] by {
            assert(s[i] == p[i]);
            assert(s[i] == q[i]);
        }
        assert(p =~= q);
        if x.len() == 3 {
            let m = a.last() as int;
            let n = b.last() as int;
            assert(x[1] == y[1] && x[2] == y[2]);
            assert(m / 16 == n / 16);
            assert(m % 16 == n % 16);
        }
    } else if x.len() == 3 {
        assert(s[s.len() - 3] == '%');
        assert(ends_in_triple(a));
        assert(ends_in_triple(b));
        assert(false);
    } else {
        assert(s[s.len() - 3] == '%');
        assert(ends_in_triple(b));
        assert(ends_in_triple(a));
        assert(false);
    }
}

/// Whether the last byte of a key is written as a triple.
spec fn ends_in_triple(a: Seq<u8>) -> bool {
    a.len() > 0 && !is_plain(a.last())
}

/// A percent sign three places before the end starts the triple of the last
/// byte.
proof fn law_percent_starts_triple(a: Seq<u8>)
    ensures
        encoded(a).len() >= 3 && encoded(a)[encoded(a).len() - 3] == '%' ==> ends_in_triple(a),
        encoded(a).len() >= 2 ==> encoded(a)[encoded(a).len() - 2] != '%',
        encoded(a).len() >= 1 ==> encoded(a)[encoded(a).len() - 1] != '%',
    decreases a.len(),
{
    if a.len() > 0 {
        law_percent_starts_triple(a.drop_last());
        let p = encoded(a.drop_last());
        let x = encoded_byte(a.last());
        let s = encoded(a);
        assert(s =~= p + x);
        if is_plain(a.last()) {
            assert(x.len() == 1);
            if s.len() >= 3 {
                assert(s[s.len() - 3] == p[p.len() - 2]);
            }
            if s.len() >= 2 {
                assert(s[s.len() - 2] == p[p.len() - 1]);
            }
        } else {
            assert(x.len() == 3);
            assert(s[s.len() - 2] == x[1]);
            assert(s[s.len() - 1] == x[2]);
        }
    }
}

/// No two keys are encoded alike, so a copy never takes its source from another
/// object.
pub proof fn law_encoding_is_injective(a: Seq<u8>, b: Seq<u8>)
    requires
        encoded(a) == encoded(b),
    ensures
        a == b,
    decreases a.len(),
{
    if a.len() == 0 {
        if b.len() > 0 {
            assert(encoded(b).len() > 0);
        }
        assert(a =~= b);
    } else if b.len() == 0 {
        assert(encoded(a).len() > 0);
    } else {
        lemma_last_byte(a, b);
        law_encoding_is_injective(a.drop_last(), b.drop_last());
        assert(a =~= a.drop_last().push(a.last()));
        assert(b =~= b.drop_last().push(b.last()));
    }
}

/// The source of a copy within a bucket.
pub fn copy_source(bucket: &str, from_key: &str) -> (r: String)
    ensures
        r@ == bucket@ + "/"@ + encoded(vstd::utf8::encode_utf8(from_key@)),
{
    let key = encode_key(from_key);
    text::cat3(bucket, "/", key.as_str())
}

// ---------------------------------------------------------------------------
// Uploads in parts
// ---------------------------------------------------------------------------

/// Whether an object is written in parts.
pub fn is_multipart(len: usize) -> (r: bool)
    ensures
        r == (len > MULTIPART_THRESHOLD),
{
    len > MULTIPART_THRESHOLD
}

/// How far an upload in parts has got.
#[derive(Debug, Clone, PartialEq, Eq)]
pub enum UploadState {
    /// The upload is to be opened.
    Create,
    /// The part from `start` up to `end` is to be sent, under the number after
    /// the parts sent so far.
    Part { sent: usize, start: usize, end: usize },
    /// All parts are sent; the upload is to be completed.
    Complete { sent: usize },
    /// A part or the completion failed; the upload is to be given up.
    Abort { error: Error },
    /// It is over.
    Done,
    Failed { error: Error },
}

/// What happened since the last step.
#[derive(Debug, Clone, PartialEq, Eq)]
pub enum UploadEvent {
    /// The request succeeded.
    Succeeded,
    /// The request failed.
    Failed(Error),
}

/// The smaller of two places.
pub open spec fn until(start: int, len: int) -> int {
    if len - start < PART_SIZE {
        len
    } else {
        start + PART_SIZE
    }
}

/// Where the part that starts at `start` ends.
fn part_end(start: usize, len: usize) -> (end: usize)
    requires
        start <= len,
    ensures
        end == until(start as int, len as int),
{
    if len - start < PART_SIZE {
        len
    } else {
        start + PART_SIZE
    }
}

/// The next part, or the end of the upload.
pub open spec fn part_from(sent: nat, start: int, len: int, state: UploadState) -> bool {
    if start < len {
        state matches UploadState::Part { sent: n, start: s, end: e } && n == sent && s == start && e
            == until(start, len)
    } else {
        state matches UploadState::Complete { sent: n } && n == sent
    }
}

/// Whether an event leads from one state to another, for an object of a given
/// length. An upload that was opened ends by being completed, or, after any
/// failure, by being given up.
pub open spec fn upload_step(len: int, state: UploadState, event: UploadEvent, after: UploadState) -> bool {
    match (state, event) {
        (UploadState::Create, UploadEvent::Succeeded) => part_from(0, 0, len, after),
        (UploadState::Create, UploadEvent::Failed(e)) => after == (UploadState::Failed { error: e }),
        (UploadState::Part { sent, start, end }, UploadEvent::Succeeded) => part_from(
            sent as nat + 1,
            end as int,
            len,
            after,
        ),
        (UploadState::Part { .. }, UploadEvent::Failed(e)) => after == (UploadState::Abort {
            error: e,
        }),
        (UploadState::Complete { .. }, UploadEvent::Succeeded) => after is Done,
        (UploadState::Complete { .. }, UploadEvent::Failed(e)) => after == (UploadState::Abort {
            error: e,
        }),
        (UploadState::Abort { error }, _) => after == (UploadState::Failed { error }),
        (state, _) => after == state,
    }
}

/// Whether the parts sent so far are as many as their place says.
pub open spec fn upload_sound(len: int, state: UploadState) -> bool {
    match state {
        UploadState::Part { sent, start, end } => {
            &&& start == sent * PART_SIZE
            &&& start < end <= len
            &&& end == until(start as int, len)
        },
        UploadState::Complete { sent } => sent <= len,
        _ => true,
    }
}

/// The next part, or the end of the upload.
fn next_part(sent: usize, start: usize, len: usize) -> (r: UploadState)
    requires
        start <= len,
    ensures
        part_from(sent as nat, start as int, len as int, r),
{
    if start < len {
        UploadState::Part { sent, start, end: part_end(start, len) }
    } else {
        UploadState::Complete { sent }
    }
}

/// Takes an event into account.
pub fn upload_next(len: usize, state: UploadState, event: UploadEvent) -> (r: UploadState)
    requires
        upload_sound(len as int, state),
    ensures
        upload_step(len as int, state, event, r),
        upload_sound(len as int, r),
{
    match (state, event) {
        (UploadState::Create, UploadEvent::Succeeded) => next_part(0, 0, len),
        (UploadState::Create, UploadEvent::Failed(e)) => UploadState::Failed { error: e },
        (UploadState::Part { sent, start, end }, UploadEvent::Succeeded) => {
            proof {
                assert(sent <= sent * PART_SIZE) by (nonlinear_arith)
                    requires
                        PART_SIZE == 8_388_608,
                        sent >= 0,
                ;
                assert((sent + 1) * PART_SIZE == sent * PART_SIZE + PART_SIZE) by (nonlinear_arith);
            }
            next_part(sent + 1, end, len)
        },
        (UploadState::Part { .. }, UploadEvent::Failed(e)) => UploadState::Abort { error: e },
        (UploadState::Complete { .. }, UploadEvent::Succeeded) => UploadState::Done,
        (UploadState::Complete { .. }, UploadEvent::Failed(e)) => UploadState::Abort { error: e },
        (UploadState::Abort { error }, _) => UploadState::Failed { error },
        (state, _) => state,
    }
}

/// The number of a part. They count from one.
pub fn part_number(sent: usize) -> (r: i32)
    requires
        sent < i32::MAX,
    ensures
        r == sent + 1,
{
    sent as i32 + 1
}

/// The parts of some data from a place on, in a row.
pub open spec fn parts_from(data: Seq<u8>, start: int) -> Seq<u8>
    decreases data.len() - start,
{
    if 0 <= start < data.len() {
        data.subrange(start, until(start, data.len() as int)) + parts_from(
            data,
            until(start, data.len() as int),
        )
    } else {
        Seq::empty()
    }
}

/// The parts of an object, put together in the order of their numbers, are the
/// object.
pub proof fn law_parts_make_up_the_object(data: Seq<u8>, start: int)
    requires
        0 <= start <= data.len(),
    ensures
        parts_from(data, start) == data.skip(start),
    decreases data.len() - start,
{
    if start < data.len() {
        let end = until(start, data.len() as int);
        law_parts_make_up_the_object(data, end);
        assert(data.subrange(start, end) + data.skip(end) =~= data.skip(start));
    } else {
        assert(data.skip(start) =~= Seq::<u8>::empty());
    }
}

/// Every part but the last has the full size.
pub proof fn law_parts_are_full_but_the_last(start: int, len: int)
    requires
        0 <= start < len,
        until(start, len) < len,
    ensures
        until(start, len) - start == PART_SIZE,
        until(start, len) - start == 8 * 1024 * 1024,
{
}

/// Whether an upload has been opened and is neither completed nor given up.
pub open spec fn is_pending(state: UploadState) -> bool {
    state is Part || state is Complete || state is Abort
}

/// The parts of an upload follow on each other from the first byte to the last, and it
/// is completed once the last one is sent, with as many parts as were sent.
pub proof fn law_parts_follow_on_each_other(
    len: int,
    state: UploadState,
    after: UploadState,
)
    requires
        len > 0,
        upload_sound(len, state),
        upload_step(len, state, UploadEvent::Succeeded, after),
    ensures
        state is Create ==> after is Part && after->start == 0 && after->Part_sent == 0,
        state is Part ==> state->start < state->end <= len,
        state is Part && state->end < len ==> after is Part && after->start == state->end
            && after->Part_sent == state->Part_sent + 1,
        state is Part && state->end == len ==> after is Complete && after->Complete_sent
            == state->Part_sent + 1,
        state is Complete ==> after is Done,
{
}

/// An upload that has been opened is never left dangling: whatever happens, it
/// stays pending until it is completed or given up, any failed part and a failed
/// completion lead to giving it up, and the error is the one that came first.
pub proof fn law_opened_upload_never_dangles(
    len: int,
    state: UploadState,
    event: UploadEvent,
    after: UploadState,
)
    requires
        is_pending(state),
        upload_step(len, state, event, after),
    ensures
        is_pending(after) || (state is Complete && after is Done) || (state matches UploadState::Abort {
            error,
        } && after == (UploadState::Failed { error })),
        !(state is Abort) ==> (event matches UploadEvent::Failed(e) ==> after == (
        UploadState::Abort { error: e })),
{
}

// ---------------------------------------------------------------------------
// Conditional writes
// ---------------------------------------------------------------------------

/// The condition of a conditional write.
#[derive(Debug, Clone, PartialEq, Eq)]
pub enum Condition {
    /// The object still has this etag.
    IfMatch(String),
    /// There is no object.
    IfNoneMatchAny,
}

/// The message about a conditional write that is too large.
pub open spec fn too_large_message(key: Seq<char>, len: nat) -> Seq<char> {
    "put_if_match "@ + key + ": conditional multipart writes are not supported ("@ + text::decimal(
        len,
    ) + (" bytes > "@ + text::decimal(MULTIPART_THRESHOLD as nat) + ")"@)
}

/// The condition under which bytes may be written. Conditional writes are made
/// by a single request, so large ones are refused rather than made without the
/// condition.
pub fn write_condition(key: &str, expected_etag: Option<&str>, len: usize) -> (r: Result<
    Condition,
    Error,
>)
    ensures
        if len > MULTIPART_THRESHOLD {
            r matches Err(Error::Store(m)) && m@ == too_large_message(key@, len as nat)
        } else {
            match expected_etag {
                Some(etag) => r matches Ok(Condition::IfMatch(e)) && e@ == etag@,
                None => r == Ok::<Condition, Error>(Condition::IfNoneMatchAny),
            }
        },
{
    if is_multipart(len) {
        let size = text::decimal_text(len as u64);
        let limit = text::decimal_text(MULTIPART_THRESHOLD as u64);
        let tail = text::cat3(" bytes > ", limit.as_str(), ")");
        let mut m = text::cat4(
            "put_if_match ",
            key,
            ": conditional multipart writes are not supported (",
            size.as_str(),
        );
        m.append(tail.as_str());
        return Err(Error::Store(m));
    }
    match expected_etag {
        Some(etag) => Ok(Condition::IfMatch(etag.to_owned())),
        None => Ok(Condition::IfNoneMatchAny),
    }
}

/// What a refused conditional write means: a failed condition is a conflict,
/// anything else an error.
pub fn refused_write(key: &str, code: Option<&str>, detail: &str) -> (r: Result<PutOutcome, Error>)
    ensures
        if api::opt_str(code) == Some("PreconditionFailed"@) {
            r == Ok::<PutOutcome, Error>(PutOutcome::Conflict { current_etag: None })
        } else {
            r matches Err(Error::Store(m)) && m@ == "put_if_match "@ + key@ + ": "@ + detail@
        },
{
    let failed: bool = match code {
        Some(c) => text::same(c, "PreconditionFailed"),
        None => false,
    };
    if failed {
        Ok(PutOutcome::Conflict { current_etag: None })
    } else {
        Err(Error::Store(text::cat4("put_if_match ", key, ": ", detail)))
    }
}

/// Judges an endpoint by two create-only writes under the same key: the first
/// has to succeed, and the second has to be refused.
pub fn probe_verdict(first: &PutOutcome, second: Result<PutOutcome, Error>) -> (r: Result<(), Error>)
    ensures
        match (*first, second) {
            (PutOutcome::Conflict { .. }, _) => r matches Err(Error::Store(m)) && m@
                == "conditional-write capability probe: unexpected conflict on first (create-only) write"@,
            (PutOutcome::Written(_), Ok(PutOutcome::Conflict { .. })) => r is Ok,
            (PutOutcome::Written(_), Ok(PutOutcome::Written(_))) => r matches Err(Error::Store(m))
                && m@
                == "configured endpoint does not appear to honor conditional writes (a second create-only write to the same key was not rejected) — refusing to rely on compare-and-swap against this endpoint; see ADR 007, Group B1"@,
            (PutOutcome::Written(_), Err(e)) => r == Err::<(), Error>(e),
        },
{
    match first {
        PutOutcome::Conflict { .. } => {
            return Err(
                Error::store(
                    "conditional-write capability probe: unexpected conflict on first (create-only) write",
                ),
            );
        },
        PutOutcome::Written(_) => {},
    }
    match second {
        Ok(PutOutcome::Conflict { .. }) => Ok(()),
        Ok(PutOutcome::Written(_)) => Err(
            Error::store(
                "configured endpoint does not appear to honor conditional writes (a second create-only write to the same key was not rejected) — refusing to rely on compare-and-swap against this endpoint; see ADR 007, Group B1",
            ),
        ),
        Err(e) => Err(e),
    }
}

/// The size that a reply states, nothing and less than nothing counting as
/// zero.
pub fn stated_size(content_length: Option<i64>) -> (r: u64)
    ensures
        r == match content_length {
            Some(n) => if n > 0 {
                n as int
            } else {
                0
            },
            None => 0,
        },
{
    match content_length {
        Some(n) => {
            if n > 0 {
                n as u64
            } else {
                0
            }
        },
        None => 0,
    }
}

/// The token of the next page of a listing, if the page is not the last.
pub fn next_page(is_truncated: Option<bool>, token: Option<String>) -> (r: Option<String>)
    ensures
        r == (if is_truncated == Some(true) {
            token
        } else {
            None
        }),
{
    match is_truncated {
        Some(true) => token,
        _ => None,
    }
}

} // verus!
