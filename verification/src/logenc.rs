use vstd::prelude::*;
use crate::packet::Records;

verus! {

/// The decimal digit character for `n < 10`.
pub open spec fn digit_char(n: u64) -> char {
    if n == 0 {
        '0'
    } else if n == 1 {
        '1'
    } else if n == 2 {
        '2'
    } else if n == 3 {
        '3'
    } else if n == 4 {
        '4'
    } else if n == 5 {
        '5'
    } else if n == 6 {
        '6'
    } else if n == 7 {
        '7'
    } else if n == 8 {
        '8'
    } else {
        '9'
    }
}

/// The decimal representation of `n`, most significant digit first, with no
/// leading zero except for `n == 0` itself.
pub open spec fn dec_chars(n: u64) -> Seq<char>
    decreases n,
{
    if n < 10 {
        seq![digit_char(n)]
    } else {
        dec_chars(n / 10) + seq![digit_char(n % 10)]
    }
}

/// Append a single decimal digit to `out`.
fn push_digit(out: &mut String, d: u64)
    requires
        d < 10,
    ensures
        final(out)@ == old(out)@ + seq![digit_char(d)],
{
    proof {
        reveal_strlit("0");
        reveal_strlit("1");
        reveal_strlit("2");
        reveal_strlit("3");
        reveal_strlit("4");
        reveal_strlit("5");
        reveal_strlit("6");
        reveal_strlit("7");
        reveal_strlit("8");
        reveal_strlit("9");
    }
    if d == 0 {
        out.append("0");
    } else if d == 1 {
        out.append("1");
    } else if d == 2 {
        out.append("2");
    } else if d == 3 {
        out.append("3");
    } else if d == 4 {
        out.append("4");
    } else if d == 5 {
        out.append("5");
    } else if d == 6 {
        out.append("6");
    } else if d == 7 {
        out.append("7");
    } else if d == 8 {
        out.append("8");
    } else {
        out.append("9");
    }
}

/// Append the decimal representation of `n` to `out`.
pub fn push_decimal(out: &mut String, n: u64)
    ensures
        final(out)@ == old(out)@ + dec_chars(n),
    decreases n,
{
    if n < 10 {
        push_digit(out, n);
    } else {
        push_decimal(out, n / 10);
        push_digit(out, n % 10);
        proof {
            assert(old(out)@ + dec_chars(n / 10) + seq![digit_char(n % 10)] =~= old(out)@
                + dec_chars(n));
        }
    }
}

/// The JSON text that the serializer produces for a list of record batches:
/// one JSON array whose elements are the batches, in order.
pub uninterp spec fn json_of(batches: Seq<Seq<i64>>) -> Seq<u8>;

/// The sequence of batch contents underneath a vector of record batches.
pub open spec fn batches_view(batches: Seq<Records>) -> Seq<Seq<i64>> {
    batches.map_values(|b: Records| b@)
}

/// Serialize a list of record batches as one JSON array.
///
/// Relies on `serde_json::to_vec`: for sequences of integers serialization is
/// total (its documentation lists failure only for maps with non-string keys
/// and for custom `Serialize` impls that fail), the output is determined by
/// the value alone, and the compact formatter emits only digits, signs,
/// brackets and commas — in particular, no newline byte.
#[verifier::external_body]
fn encode_batches(batches: &Vec<Records>) -> (r: Vec<u8>)
    ensures
        r@ == json_of(batches_view(batches@)),
        forall|i: int| 0 <= i < r@.len() ==> r@[i] != 10u8,
{
    serde_json::to_vec(batches).unwrap()
}

/// Deserialize one JSON array of record batches.
///
/// Relies on `serde_json::from_slice`: parsing the exact bytes that
/// `serde_json::to_vec` produced for a value of this shape yields that value
/// back (serialization of integer sequences is canonical and lossless).
#[verifier::external_body]
fn decode_batches(bytes: &[u8]) -> (r: Option<Vec<Records>>)
    ensures
        r is Some <== exists|b: Seq<Seq<i64>>| bytes@ == json_of(b),
        r matches Some(v) ==> forall|b: Seq<Seq<i64>>| bytes@ == json_of(b) ==> batches_view(v@)
            == b,
{
    serde_json::from_slice(bytes).ok()
}

/// The newline byte that delimits one flush record from the next.
pub open spec fn newline() -> u8 {
    10u8
}

/// The exact bytes of the log line that records one flushed batch list.
pub open spec fn log_line_of(batches: Seq<Seq<i64>>) -> Seq<u8> {
    json_of(batches) + seq![newline()]
}

/// Encode one flush of record batches as a newline-terminated log line.
pub fn make_log_line(batches: &Vec<Records>) -> (r: Vec<u8>)
    ensures
        r@ == log_line_of(batches_view(batches@)),
        r@.len() > 0,
        r@[r@.len() - 1] == newline(),
{
    let mut line = encode_batches(batches);
    line.push(10u8);
    proof {
        assert(line@ =~= log_line_of(batches_view(batches@)));
    }
    line
}

/// Decode one log line back into the record batches of its flush. Returns the
/// batches for any line that `make_log_line` produced; returns `None` when the
/// line is not newline-terminated (a truncated tail left by a crash).
pub fn parse_log_line(line: &Vec<u8>) -> (r: Option<Vec<Records>>)
    ensures
        forall|b: Seq<Seq<i64>>| line@ == log_line_of(b) ==> (r matches Some(v) && batches_view(
            v@,
        ) == b),
        line@.len() == 0 ==> r is None,
        line@.len() > 0 && line@[line@.len() - 1] != newline() ==> r is None,
{
    if line.len() == 0 {
        return None;
    }
    let last = line[line.len() - 1];
    if last != 10u8 {
        proof {
            assert forall|b: Seq<Seq<i64>>| line@ != log_line_of(b) by {
                assert(log_line_of(b)[log_line_of(b).len() - 1] == newline());
            }
        }
        return None;
    }
    let body = &line.as_slice()[0..line.len() - 1];
    let r = decode_batches(body);
    proof {
        assert forall|b: Seq<Seq<i64>>| line@ == log_line_of(b) implies body@ == json_of(b) by {
            assert(body@ =~= json_of(b));
        }
    }
    r
}

} // verus!
