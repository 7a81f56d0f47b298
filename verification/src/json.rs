//! The JSON wire form of messages: a canonical encoder with an exact
//! specification, and a decoder that accepts exactly the canonical form.
//!
//! A message goes on the wire as `{"type": <tag>, "body": <payload>}` with
//! camelCase tags and field names. The encoder below always produces one
//! canonical spelling: no spaces, fields in declaration order, numbers in
//! decimal without leading zeros, identities as hyphenated lowercase hex,
//! pheromone levels with six fractional digits.
//!
//! The decoder accepts exactly that canonical spelling, by design: a
//! re-encoding check pins every accepted input to the encoding of its
//! result. A lenient JSON reader (other key orders, whitespace, escapes)
//! would accept more inputs but could not carry this contract; a client
//! must send the canonical form.
use vstd::prelude::*;
use vstd::string::StringSliceAdditionalSpecFns;

use crate::error::ServerError;
use crate::messages::ErrorV;
use crate::messages::Message;
use crate::messages::MessageV;
use crate::messages::MazeV;
use crate::messages::PlayerId;

verus! {

/// The character of the decimal digit `d`.
pub open spec fn digit_char(d: u32) -> char {
    ((48 + d % 10) as u8) as char
}

/// The character of the hexadecimal digit `d`, lowercase.
pub open spec fn hex_char(d: u32) -> char {
    if d % 16 < 10 {
        ((48 + d % 16) as u8) as char
    } else {
        ((87 + d % 16) as u8) as char
    }
}

/// The decimal spelling of `n`, without leading zeros.
pub open spec fn enc_u32(n: u32) -> Seq<char>
    decreases n,
{
    if n < 10 {
        seq![digit_char(n)]
    } else {
        enc_u32(n / 10) + seq![digit_char(n % 10)]
    }
}

/// Relies on `String::push`: appends exactly the one character `c`.
#[verifier::external_body]
fn push_char(s: &mut String, c: char)
    ensures
        final(s)@ == old(s)@ + seq![c],
{
    s.push(c);
}

/// Append the decimal spelling of `n`.
fn push_u32(out: &mut String, n: u32)
    ensures
        final(out)@ == old(out)@ + enc_u32(n),
    decreases n,
{
    if n < 10 {
        push_char(out, ((48 + n) as u8) as char);
    } else {
        push_u32(out, n / 10);
        push_char(out, ((48 + n % 10) as u8) as char);
    }
}

/// The `k`-th of the 32 hexadecimal digits of `id`, most significant first.
pub open spec fn uuid_nibble(id: PlayerId, k: int) -> u32 {
    ((id >> (((31 - k) * 4) as u128)) % 16) as u32
}

/// The character at position `i` of the canonical hyphenated spelling of
/// `id`: `8-4-4-4-12` lowercase hexadecimal digits.
pub open spec fn uuid_char(id: PlayerId, i: int) -> char {
    if i == 8 || i == 13 || i == 18 || i == 23 {
        '-'
    } else if i < 8 {
        hex_char(uuid_nibble(id, i))
    } else if i < 13 {
        hex_char(uuid_nibble(id, i - 1))
    } else if i < 18 {
        hex_char(uuid_nibble(id, i - 2))
    } else if i < 23 {
        hex_char(uuid_nibble(id, i - 3))
    } else {
        hex_char(uuid_nibble(id, i - 4))
    }
}

/// The canonical hyphenated spelling of a player identity.
pub open spec fn enc_uuid(id: PlayerId) -> Seq<char> {
    Seq::new(36, |i: int| uuid_char(id, i))
}

/// Append one hexadecimal digit.
fn push_hex(out: &mut String, d: u32)
    requires
        d < 16,
    ensures
        final(out)@ == old(out)@ + seq![hex_char(d)],
{
    if d < 10 {
        push_char(out, ((48 + d) as u8) as char);
    } else {
        push_char(out, ((87 + d) as u8) as char);
    }
}

/// Append the canonical hyphenated spelling of `id`.
fn push_uuid(out: &mut String, id: PlayerId)
    ensures
        final(out)@ == old(out)@ + enc_uuid(id),
{
    let mut i: usize = 0;
    while i < 36
        invariant
            0 <= i <= 36,
            out@.len() == old(out)@.len() + i,
            out@ == old(out)@ + Seq::new(i as nat, |k: int| uuid_char(id, k)),
        decreases 36 - i,
    {
        let ghost pre = out@;
        if i == 8 || i == 13 || i == 18 || i == 23 {
            push_char(out, '-');
        } else {
            let k: usize = if i < 8 {
                i
            } else if i < 13 {
                i - 1
            } else if i < 18 {
                i - 2
            } else if i < 23 {
                i - 3
            } else {
                i - 4
            };
            let sh: u128 = ((31 - k) as u128) * 4;
            let d = ((id >> sh) % 16) as u32;
            push_hex(out, d);
        }
        proof {
            assert(out@ =~= old(out)@ + Seq::new((i + 1) as nat, |t: int| uuid_char(id, t)));
        }
        i = i + 1;
    }
    proof {
        assert(out@ =~= old(out)@ + enc_uuid(id));
    }
}

/// `10^k`, for the fraction digits.
pub open spec fn pow10(k: int) -> int
    decreases k,
{
    if k <= 0 {
        1
    } else {
        10 * pow10(k - 1)
    }
}

/// The six fraction digits of `f`, most significant first.
pub open spec fn six_frac(f: u32) -> Seq<char> {
    Seq::new(6, |i: int| digit_char((((f as int) / pow10(5 - i)) % 10) as u32))
}

/// The canonical spelling of the fixed-point level `v`: the integer part
/// in decimal, a dot, and six fraction digits.
pub open spec fn enc_fixed(v: u32) -> Seq<char> {
    enc_u32(v / 1000000) + seq!['.'] + six_frac(v % 1000000)
}

/// Append the canonical spelling of the fixed-point level `v`.
fn push_fixed(out: &mut String, v: u32)
    ensures
        final(out)@ == old(out)@ + enc_fixed(v),
{
    push_u32(out, v / 1000000);
    push_char(out, '.');
    let f = v % 1000000;
    let mut i: usize = 0;
    let ghost mid = out@;
    while i < 6
        invariant
            0 <= i <= 6,
            f < 1000000,
            out@ == mid + Seq::new(i as nat, |k: int| digit_char(
                (((f as int) / pow10(5 - k)) % 10) as u32,
            )),
        decreases 6 - i,
    {
        let p: u32 = if i == 0 {
            100000
        } else if i == 1 {
            10000
        } else if i == 2 {
            1000
        } else if i == 3 {
            100
        } else if i == 4 {
            10
        } else {
            1
        };
        proof {
            assert(pow10(0) == 1);
            assert(pow10(1) == 10);
            assert(pow10(2) == 100);
            assert(pow10(3) == 1000);
            assert(pow10(4) == 10000);
            assert(pow10(5) == 100000);
        }
        push_char(out, ((48 + (f / p) % 10) as u8) as char);
        proof {
            assert(out@ =~= mid + Seq::new((i + 1) as nat, |k: int| digit_char(
                (((f as int) / pow10(5 - k)) % 10) as u32,
            )));
        }
        i = i + 1;
    }
    proof {
        assert(out@ =~= old(out)@ + enc_fixed(v));
    }
}

/// A quoted string; the contents go through unescaped, so the canonical
/// form covers exactly the strings free of quotes, backslashes and control
/// characters.
pub open spec fn enc_str(s: Seq<char>) -> Seq<char> {
    seq!['"'] + s + seq!['"']
}

pub open spec fn enc_bool(b: bool) -> Seq<char> {
    if b {
        "true"@
    } else {
        "false"@
    }
}

/// The elements of a tile array, separated by commas.
pub open spec fn enc_u8_items(ts: Seq<u8>) -> Seq<char>
    decreases ts.len(),
{
    if ts.len() == 0 {
        Seq::empty()
    } else if ts.len() == 1 {
        enc_u32(ts[0] as u32)
    } else {
        enc_u32(ts[0] as u32) + seq![','] + enc_u8_items(ts.drop_first())
    }
}

pub open spec fn enc_u8_list(ts: Seq<u8>) -> Seq<char> {
    seq!['['] + enc_u8_items(ts) + seq![']']
}

/// The elements of a pheromone level array, separated by commas.
pub open spec fn enc_fixed_items(vs: Seq<u32>) -> Seq<char>
    decreases vs.len(),
{
    if vs.len() == 0 {
        Seq::empty()
    } else if vs.len() == 1 {
        enc_fixed(vs[0])
    } else {
        enc_fixed(vs[0]) + seq![','] + enc_fixed_items(vs.drop_first())
    }
}

pub open spec fn enc_fixed_list(vs: Seq<u32>) -> Seq<char> {
    seq!['['] + enc_fixed_items(vs) + seq![']']
}

/// The elements of a string array, separated by commas.
pub open spec fn enc_str_items(ss: Seq<Seq<char>>) -> Seq<char>
    decreases ss.len(),
{
    if ss.len() == 0 {
        Seq::empty()
    } else if ss.len() == 1 {
        enc_str(ss[0])
    } else {
        enc_str(ss[0]) + seq![','] + enc_str_items(ss.drop_first())
    }
}

pub open spec fn enc_str_list(ss: Seq<Seq<char>>) -> Seq<char> {
    seq!['['] + enc_str_items(ss) + seq![']']
}

pub open spec fn enc_opt_uuid(p: Option<PlayerId>) -> Seq<char> {
    match p {
        Some(id) => seq!['"'] + enc_uuid(id) + seq!['"'],
        None => "null"@,
    }
}

pub open spec fn enc_maze(m: MazeV) -> Seq<char> {
    "{\"nbColumn\":"@ + enc_u32(m.nb_column) + ",\"nbLine\":"@ + enc_u32(m.nb_line)
        + ",\"nestColumn\":"@ + enc_u32(m.nest_column) + ",\"nestLine\":"@ + enc_u32(m.nest_line)
        + ",\"tiles\":"@ + enc_u8_list(m.tiles) + seq!['}']
}

pub open spec fn enc_error(e: ErrorV) -> Seq<char> {
    match e {
        ErrorV::InvalidMaze(m) => "{\"InvalidMaze\":"@ + enc_str(m) + seq!['}'],
        ErrorV::Transmission(m) => "{\"Transmission\":"@ + enc_str(m) + seq!['}'],
        ErrorV::SerializerError(m) => "{\"SerializerError\":"@ + enc_str(m) + seq!['}'],
        ErrorV::AlreadyConnected => "\"AlreadyConnected\""@,
        ErrorV::UnexpectedParameter => "\"UnexpectedParameter\""@,
        ErrorV::Other(m) => "{\"Other\":"@ + enc_str(m) + seq!['}'],
    }
}

/// The numeric wire code of a direction.
pub open spec fn enc_direction(d: crate::messages::MoveDirection) -> Seq<char> {
    enc_u32(d.spec_code())
}

/// The one canonical JSON spelling of a message.
pub open spec fn enc_message(v: MessageV) -> Seq<char>
    decreases v,
{
    match v {
        MessageV::Join { difficulty, player_id } => {
            "{\"type\":\"join\",\"body\":{\"difficulty\":"@ + enc_u32(difficulty)
                + ",\"playerId\":"@ + enc_opt_uuid(player_id) + "}}"@
        },
        MessageV::OkMaze { maze, player_id } => {
            "{\"type\":\"okMaze\",\"body\":{\"maze\":"@ + enc_maze(maze) + ",\"playerId\":\""@
                + enc_uuid(player_id) + "\"}}"@
        },
        MessageV::Info { player_column, player_line, player_has_food, pheromon } => {
            "{\"type\":\"info\",\"body\":{\"playerColumn\":"@ + enc_u32(player_column)
                + ",\"playerLine\":"@ + enc_u32(player_line) + ",\"playerHasFood\":"@ + enc_bool(
                player_has_food,
            ) + ",\"pheromon\":"@ + enc_fixed_list(pheromon) + "}}"@
        },
        MessageV::Error(e) => "{\"type\":\"error\",\"body\":"@ + enc_error(e) + seq!['}'],
        MessageV::Move(d) => "{\"type\":\"move\",\"body\":{\"direction\":"@ + enc_direction(d)
            + "}}"@,
        MessageV::Unexpected { expected, received } => {
            "{\"type\":\"unexpected\",\"body\":{\"expected\":"@ + enc_str_list(expected)
                + ",\"received\":"@ + enc_message(*received) + "}}"@
        },
    }
}

/// Splitting one element off the end of a tile array splits its encoding.
proof fn lemma_u8_items_snoc(ts: Seq<u8>, x: u8)
    ensures
        enc_u8_items(ts.push(x)) == if ts.len() == 0 {
            enc_u32(x as u32)
        } else {
            enc_u8_items(ts) + seq![','] + enc_u32(x as u32)
        },
    decreases ts.len(),
{
    let t2 = ts.push(x);
    if ts.len() == 0 {
        assert(t2[0] == x);
    } else {
        assert(t2[0] == ts[0]);
        assert(t2.drop_first() =~= ts.drop_first().push(x));
        lemma_u8_items_snoc(ts.drop_first(), x);
    }
}

/// Splitting one element off the end of a level array splits its encoding.
proof fn lemma_fixed_items_snoc(vs: Seq<u32>, x: u32)
    ensures
        enc_fixed_items(vs.push(x)) == if vs.len() == 0 {
            enc_fixed(x)
        } else {
            enc_fixed_items(vs) + seq![','] + enc_fixed(x)
        },
    decreases vs.len(),
{
    let t2 = vs.push(x);
    if vs.len() == 0 {
        assert(t2[0] == x);
    } else {
        assert(t2[0] == vs[0]);
        assert(t2.drop_first() =~= vs.drop_first().push(x));
        lemma_fixed_items_snoc(vs.drop_first(), x);
    }
}

/// Splitting one element off the end of a string array splits its encoding.
proof fn lemma_str_items_snoc(ss: Seq<Seq<char>>, x: Seq<char>)
    ensures
        enc_str_items(ss.push(x)) == if ss.len() == 0 {
            enc_str(x)
        } else {
            enc_str_items(ss) + seq![','] + enc_str(x)
        },
    decreases ss.len(),
{
    let t2 = ss.push(x);
    if ss.len() == 0 {
        assert(t2[0] == x);
    } else {
        assert(t2[0] == ss[0]);
        assert(t2.drop_first() =~= ss.drop_first().push(x));
        lemma_str_items_snoc(ss.drop_first(), x);
    }
}

/// Append the canonical spelling of a tile array.
fn push_u8_list(out: &mut String, ts: &Vec<u8>)
    ensures
        final(out)@ == old(out)@ + enc_u8_list(ts@),
{
    push_char(out, '[');
    let len = ts.len();
    let mut k: usize = 0;
    while k < len
        invariant
            0 <= k <= len,
            len == ts@.len(),
            out@ == old(out)@ + seq!['['] + enc_u8_items(ts@.take(k as int)),
        decreases len - k,
    {
        if k > 0 {
            push_char(out, ',');
        }
        push_u32(out, ts[k] as u32);
        proof {
            assert(ts@.take(k as int).push(ts@[k as int]) =~= ts@.take(k as int + 1));
            lemma_u8_items_snoc(ts@.take(k as int), ts@[k as int]);
        }
        k = k + 1;
    }
    push_char(out, ']');
    proof {
        assert(ts@.take(len as int) =~= ts@);
        assert(out@ =~= old(out)@ + enc_u8_list(ts@));
    }
}

/// Append the canonical spelling of a pheromone level array.
fn push_fixed_list(out: &mut String, vs: &Vec<u32>)
    ensures
        final(out)@ == old(out)@ + enc_fixed_list(vs@),
{
    push_char(out, '[');
    let len = vs.len();
    let mut k: usize = 0;
    while k < len
        invariant
            0 <= k <= len,
            len == vs@.len(),
            out@ == old(out)@ + seq!['['] + enc_fixed_items(vs@.take(k as int)),
        decreases len - k,
    {
        if k > 0 {
            push_char(out, ',');
        }
        push_fixed(out, vs[k]);
        proof {
            assert(vs@.take(k as int).push(vs@[k as int]) =~= vs@.take(k as int + 1));
            lemma_fixed_items_snoc(vs@.take(k as int), vs@[k as int]);
        }
        k = k + 1;
    }
    push_char(out, ']');
    proof {
        assert(vs@.take(len as int) =~= vs@);
        assert(out@ =~= old(out)@ + enc_fixed_list(vs@));
    }
}

/// Append the canonical spelling of a string array.
fn push_str_list(out: &mut String, ss: &Vec<String>)
    ensures
        final(out)@ == old(out)@ + enc_str_list(Seq::new(ss@.len(), |i: int| ss@[i]@)),
{
    let ghost view = Seq::new(ss@.len(), |i: int| ss@[i]@);
    push_char(out, '[');
    let len = ss.len();
    let mut k: usize = 0;
    while k < len
        invariant
            0 <= k <= len,
            len == ss@.len(),
            view == Seq::new(ss@.len(), |i: int| ss@[i]@),
            out@ == old(out)@ + seq!['['] + enc_str_items(view.take(k as int)),
        decreases len - k,
    {
        if k > 0 {
            push_char(out, ',');
        }
        push_char(out, '"');
        out.append(ss[k].as_str());
        push_char(out, '"');
        proof {
            assert(view.take(k as int).push(view[k as int]) =~= view.take(k as int + 1));
            lemma_str_items_snoc(view.take(k as int), view[k as int]);
        }
        k = k + 1;
    }
    push_char(out, ']');
    proof {
        assert(view.take(len as int) =~= view);
        assert(out@ =~= old(out)@ + enc_str_list(view));
    }
}

/// Append the canonical spelling of `m`.
#[verifier::rlimit(100)]
fn push_message(out: &mut String, m: &Message)
    ensures
        final(out)@ == old(out)@ + enc_message(m@),
    decreases *m,
{
    match m {
        Message::Join(b) => {
            out.append("{\"type\":\"join\",\"body\":{\"difficulty\":");
            push_u32(out, b.difficulty);
            out.append(",\"playerId\":");
            match b.player_id {
                Some(id) => {
                    push_char(out, '"');
                    push_uuid(out, id);
                    push_char(out, '"');
                },
                None => {
                    out.append("null");
                },
            }
            out.append("}}");
        },
        Message::OkMaze(b) => {
            out.append("{\"type\":\"okMaze\",\"body\":{\"maze\":");
            out.append("{\"nbColumn\":");
            push_u32(out, b.maze.nb_column);
            out.append(",\"nbLine\":");
            push_u32(out, b.maze.nb_line);
            out.append(",\"nestColumn\":");
            push_u32(out, b.maze.nest_column);
            out.append(",\"nestLine\":");
            push_u32(out, b.maze.nest_line);
            out.append(",\"tiles\":");
            push_u8_list(out, &b.maze.tiles);
            push_char(out, '}');
            out.append(",\"playerId\":\"");
            push_uuid(out, b.player_id);
            out.append("\"}}");
        },
        Message::Info(b) => {
            out.append("{\"type\":\"info\",\"body\":{\"playerColumn\":");
            push_u32(out, b.player_column);
            out.append(",\"playerLine\":");
            push_u32(out, b.player_line);
            out.append(",\"playerHasFood\":");
            if b.player_has_food {
                out.append("true");
            } else {
                out.append("false");
            }
            out.append(",\"pheromon\":");
            push_fixed_list(out, &b.pheromon);
            out.append("}}");
        },
        Message::Error(e) => {
            out.append("{\"type\":\"error\",\"body\":");
            match e {
                ServerError::InvalidMaze(msg) => {
                    out.append("{\"InvalidMaze\":");
                    push_char(out, '"');
                    out.append(msg.as_str());
                    push_char(out, '"');
                    push_char(out, '}');
                },
                ServerError::Transmission(msg) => {
                    out.append("{\"Transmission\":");
                    push_char(out, '"');
                    out.append(msg.as_str());
                    push_char(out, '"');
                    push_char(out, '}');
                },
                ServerError::SerializerError(msg) => {
                    out.append("{\"SerializerError\":");
                    push_char(out, '"');
                    out.append(msg.as_str());
                    push_char(out, '"');
                    push_char(out, '}');
                },
                ServerError::AlreadyConnected => {
                    out.append("\"AlreadyConnected\"");
                },
                ServerError::UnexpectedParameter => {
                    out.append("\"UnexpectedParameter\"");
                },
                ServerError::Other(msg) => {
                    out.append("{\"Other\":");
                    push_char(out, '"');
                    out.append(msg.as_str());
                    push_char(out, '"');
                    push_char(out, '}');
                },
            }
            push_char(out, '}');
        },
        Message::Move(b) => {
            out.append("{\"type\":\"move\",\"body\":{\"direction\":");
            push_u32(out, b.direction.code());
            out.append("}}");
        },
        Message::Unexpected { expected, received } => {
            out.append("{\"type\":\"unexpected\",\"body\":{\"expected\":");
            push_str_list(out, expected);
            out.append(",\"received\":");
            push_message(out, received);
            out.append("}}");
        },
    }
    proof {
        assert(out@ =~= old(out)@ + enc_message(m@));
    }
}

/// Encode `m` into its canonical JSON spelling.
pub fn encode_message(m: &Message) -> (r: String)
    ensures
        r@ == enc_message(m@),
{
    let mut out = String::new();
    push_message(&mut out, m);
    proof {
        assert(out@ =~= enc_message(m@));
    }
    out
}

/// The bytes of an all-ASCII character sequence, one byte per character.
pub open spec fn ascii_of(cs: Seq<char>) -> Seq<u8> {
    Seq::new(cs.len(), |i: int| cs[i] as u8)
}

/// The byte layout of a canonical `move` message: the literal head, one
/// digit for the direction, and the two closing braces.
proof fn lemma_move_encoding(bytes: Seq<u8>, d: crate::messages::MoveDirection)
    requires
        bytes == ascii_of(enc_message(MessageV::Move(d))),
    ensures
        ({
            let ml = "{\"type\":\"move\",\"body\":{\"direction\":"@;
            &&& ml.len() == 35
            &&& bytes.len() == 38
            &&& bytes.subrange(0, 35) == ascii_of(ml)
            &&& is_digit_byte(bytes[35])
            &&& bytes[35] == 48 + d.spec_code()
            &&& !is_digit_byte(bytes[36])
            &&& bytes.subrange(36, 38) == ascii_of("}}"@)
            &&& bytes[9] == 'm' as u8
        }),
        vstd::utf8::is_ascii_chars(enc_message(MessageV::Move(d))),
{
    reveal_strlit("{\"type\":\"move\",\"body\":{\"direction\":");
    reveal_strlit("}}");
    let ml = "{\"type\":\"move\",\"body\":{\"direction\":"@;
    let e = enc_message(MessageV::Move(d));
    assert(e == ml + enc_u32(d.spec_code()) + "}}"@);
    assert(enc_u32(d.spec_code()) =~= seq![digit_char(d.spec_code())]);
    assert(e.len() == 38);
    assert(bytes.subrange(0, 35) =~= ascii_of(ml));
    assert(bytes.subrange(36, 38) =~= ascii_of("}}"@));
    assert(e[35] == digit_char(d.spec_code()));
    assert(bytes[35] == digit_char(d.spec_code()) as u8);
    assert(bytes[36] == '}' as u8);
    assert forall|i: int| 0 <= i < e.len() implies '\u{0}' <= #[trigger] e[i] <= '\u{7f}' by {
        if i < 35 {
            assert(e[i] == ml[i]);
        } else if i == 35 {
            assert(e[i] == digit_char(d.spec_code()));
        } else {
            assert(e[i] == "}}"@[i - 36]);
        }
    }
}

/// The ASCII-ness of the message heads, and that the head of a canonical
/// `move` message matches none of the other spellings' heads: they differ
/// at the character after the shared tag prefix.
proof fn lemma_move_head_unique(bytes: Seq<u8>, d: crate::messages::MoveDirection)
    requires
        bytes == ascii_of(enc_message(MessageV::Move(d))),
    ensures
        vstd::utf8::is_ascii_chars("{\"type\":\"join\",\"body\":{\"difficulty\":"@),
        vstd::utf8::is_ascii_chars("{\"type\":\"okMaze\",\"body\":{\"maze\":"@),
        vstd::utf8::is_ascii_chars("{\"type\":\"info\",\"body\":{\"playerColumn\":"@),
        vstd::utf8::is_ascii_chars("{\"type\":\"error\",\"body\":"@),
        vstd::utf8::is_ascii_chars("{\"type\":\"move\",\"body\":{\"direction\":"@),
        vstd::utf8::is_ascii_chars("}}"@),
        ({
            let jl = "{\"type\":\"join\",\"body\":{\"difficulty\":"@;
            !(jl.len() <= bytes.len() && bytes.subrange(0, jl.len() as int) == ascii_of(jl))
        }),
        ({
            let ol = "{\"type\":\"okMaze\",\"body\":{\"maze\":"@;
            !(ol.len() <= bytes.len() && bytes.subrange(0, ol.len() as int) == ascii_of(ol))
        }),
        ({
            let il = "{\"type\":\"info\",\"body\":{\"playerColumn\":"@;
            !(il.len() <= bytes.len() && bytes.subrange(0, il.len() as int) == ascii_of(il))
        }),
        ({
            let el = "{\"type\":\"error\",\"body\":"@;
            !(el.len() <= bytes.len() && bytes.subrange(0, el.len() as int) == ascii_of(el))
        }),
{
    reveal_strlit("{\"type\":\"join\",\"body\":{\"difficulty\":");
    reveal_strlit("{\"type\":\"okMaze\",\"body\":{\"maze\":");
    reveal_strlit("{\"type\":\"info\",\"body\":{\"playerColumn\":");
    reveal_strlit("{\"type\":\"error\",\"body\":");
    reveal_strlit("{\"type\":\"move\",\"body\":{\"direction\":");
    reveal_strlit("}}");
    lemma_move_encoding(bytes, d);
    let jl = "{\"type\":\"join\",\"body\":{\"difficulty\":"@;
    let ol = "{\"type\":\"okMaze\",\"body\":{\"maze\":"@;
    let il = "{\"type\":\"info\",\"body\":{\"playerColumn\":"@;
    let el = "{\"type\":\"error\",\"body\":"@;
    assert(bytes[9] == 'm' as u8);
    if jl.len() <= bytes.len() && bytes.subrange(0, jl.len() as int) == ascii_of(jl) {
        assert(bytes.subrange(0, jl.len() as int)[9] == 'j' as u8);
    }
    if ol.len() <= bytes.len() && bytes.subrange(0, ol.len() as int) == ascii_of(ol) {
        assert(bytes.subrange(0, ol.len() as int)[9] == 'o' as u8);
    }
    if il.len() <= bytes.len() && bytes.subrange(0, il.len() as int) == ascii_of(il) {
        assert(bytes.subrange(0, il.len() as int)[9] == 'i' as u8);
    }
    if el.len() <= bytes.len() && bytes.subrange(0, el.len() as int) == ascii_of(el) {
        assert(bytes.subrange(0, el.len() as int)[9] == 'e' as u8);
    }
}

/// Directions with the same wire code are the same direction.
proof fn lemma_direction_code_injective(
    a: crate::messages::MoveDirection,
    b: crate::messages::MoveDirection,
)
    requires
        a.spec_code() == b.spec_code(),
    ensures
        a == b,
{
}

/// Match the ASCII bytes of `lit` at `pos`: succeeds exactly when the
/// bytes of `lit` stand at `pos`.
fn p_lit(bytes: &Vec<u8>, pos: usize, lit: &str) -> (r: Option<usize>)
    requires
        pos <= bytes@.len(),
    ensures
        r matches Some(p2) ==> pos <= p2 <= bytes@.len(),
        vstd::string::is_ascii(lit) ==> {
            let lb = ascii_of(lit@);
            &&& (r matches Some(p2) ==> p2 == pos + lb.len() && bytes@.subrange(
                pos as int,
                p2 as int,
            ) == lb)
            &&& (r is None ==> !(pos + lb.len() <= bytes@.len() && bytes@.subrange(
                pos as int,
                pos + lb.len(),
            ) == lb))
        },
{
    proof {
        broadcast use vstd::string::is_ascii_spec_bytes;

    }
    let lb = lit.as_bytes();
    let n = lb.len();
    let blen = bytes.len();
    if blen - pos < n {
        return None;
    }
    let mut k: usize = 0;
    while k < n
        invariant
            0 <= k <= n,
            blen == bytes@.len(),
            pos + n <= blen,
            n == lb@.len(),
            lb@ == lit.spec_bytes(),
            forall|j: int| 0 <= j < k ==> #[trigger] bytes@[pos + j] == lb@[j],
        decreases n - k,
    {
        if bytes[pos + k] != lb[k] {
            proof {
                broadcast use vstd::string::is_ascii_spec_bytes;

                assert(bytes@[pos + k as int] != lb@[k as int]);
                if vstd::string::is_ascii(lit) {
                    let lbs = ascii_of(lit@);
                    assert(lit.spec_bytes() =~= Seq::new(
                        lit@.len(),
                        |i: int| lit@.index(i) as u8,
                    ));
                    assert(lb@ =~= lbs);
                    if bytes@.subrange(pos as int, pos + lbs.len()) == lbs {
                        assert(bytes@.subrange(pos as int, pos + lbs.len())[k as int]
                            == lbs[k as int]);
                    }
                }
            }
            return None;
        }
        k = k + 1;
    }
    proof {
        broadcast use vstd::string::is_ascii_spec_bytes;

        if vstd::string::is_ascii(lit) {
            let lbs = ascii_of(lit@);
            assert(lit.spec_bytes() =~= Seq::new(lit@.len(), |i: int| lit@.index(i) as u8));
            assert(lb@ =~= lbs);
            assert forall|j: int| 0 <= j < n implies bytes@.subrange(pos as int, pos + n as int)[j]
                == lbs[j] by {
                assert(bytes@[pos + j] == lb@[j]);
            }
            assert(bytes@.subrange(pos as int, pos + n as int) =~= lbs);
        }
    }
    Some(pos + n)
}

/// Whether `b` is the byte of a decimal digit.
pub open spec fn is_digit_byte(b: u8) -> bool {
    48 <= b <= 57
}

/// Parse a decimal number at `pos`; fails without a digit or past `u32`.
/// A single digit followed by a non-digit parses to exactly that digit.
fn p_u32(bytes: &Vec<u8>, pos: usize) -> (r: Option<(u32, usize)>)
    requires
        pos <= bytes@.len(),
    ensures
        r matches Some(p) ==> pos < p.1 <= bytes@.len(),
        pos < bytes@.len() && is_digit_byte(bytes@[pos as int]) && (pos + 1 == bytes@.len()
            || !is_digit_byte(bytes@[pos + 1])) ==> r == Some(
            (((bytes@[pos as int] - 48) as u32), ((pos + 1) as usize)),
        ),
{
    let len = bytes.len();
    let mut v: u64 = 0;
    let mut k: usize = pos;
    while k < len && bytes[k] >= 48 && bytes[k] <= 57
        invariant
            pos <= k <= len,
            len == bytes@.len(),
            v <= 0xffffffff,
            (k == pos && v == 0) || (k == pos + 1 && pos < len && is_digit_byte(
                bytes@[pos as int],
            ) && v == bytes@[pos as int] - 48) || k > pos + 1,
            k > pos + 1 ==> pos + 1 < len && is_digit_byte(bytes@[pos + 1]),
        decreases len - k,
    {
        v = v * 10 + (bytes[k] - 48) as u64;
        if v > 0xffffffff {
            return None;
        }
        k = k + 1;
    }
    if k == pos {
        return None;
    }
    Some((v as u32, k))
}

/// Parse `true` or `false` at `pos`.
fn p_bool(bytes: &Vec<u8>, pos: usize) -> (r: Option<(bool, usize)>)
    requires
        pos <= bytes@.len(),
    ensures
        r matches Some(p) ==> pos <= p.1 <= bytes@.len(),
{
    if let Some(p2) = p_lit(bytes, pos, "true") {
        return Some((true, p2));
    }
    if let Some(p2) = p_lit(bytes, pos, "false") {
        return Some((false, p2));
    }
    None
}

/// The value of one lowercase hexadecimal digit byte.
fn p_hex_digit(b: u8) -> (r: Option<u8>) {
    if b >= 48 && b <= 57 {
        Some(b - 48)
    } else if b >= 97 && b <= 102 {
        Some(b - 87)
    } else {
        None
    }
}

/// Parse a hyphenated lowercase player identity at `pos`.
fn p_uuid(bytes: &Vec<u8>, pos: usize) -> (r: Option<(PlayerId, usize)>)
    requires
        pos <= bytes@.len(),
    ensures
        r matches Some(p) ==> pos < p.1 <= bytes@.len(),
{
    let len = bytes.len();
    if len - pos < 36 {
        return None;
    }
    let mut id: u128 = 0;
    let mut i: usize = 0;
    while i < 36
        invariant
            0 <= i <= 36,
            len == bytes@.len(),
            pos + 36 <= len,
        decreases 36 - i,
    {
        let b = bytes[pos + i];
        if i == 8 || i == 13 || i == 18 || i == 23 {
            if b != 45 {
                return None;
            }
        } else {
            match p_hex_digit(b) {
                Some(d) => {
                    id = (id << 4) | (d as u128);
                },
                None => {
                    return None;
                },
            }
        }
        i = i + 1;
    }
    Some((id, pos + 36))
}

/// Parse a fixed-point level at `pos`: an integer part and up to six
/// fraction digits, scaled to millionths; fails past `u32`.
fn p_fixed(bytes: &Vec<u8>, pos: usize) -> (r: Option<(u32, usize)>)
    requires
        pos <= bytes@.len(),
    ensures
        r matches Some(p) ==> pos < p.1 <= bytes@.len(),
{
    let len = bytes.len();
    let (ip, mut k) = match p_u32(bytes, pos) {
        Some(p) => p,
        None => {
            return None;
        },
    };
    if ip > 4294 {
        return None;
    }
    let mut v: u64 = (ip as u64) * 1000000;
    if k < len && bytes[k] == 46 {
        k = k + 1;
        let mut scale: u64 = 100000;
        let mut digits: usize = 0;
        while k < len && bytes[k] >= 48 && bytes[k] <= 57
            invariant
                pos < k <= len,
                len == bytes@.len(),
                scale <= 100000,
                v + scale * 10 <= 4295000000,
            decreases len - k,
        {
            if digits >= 6 {
                return None;
            }
            proof {
                let d: int = bytes@[k as int] - 48;
                assert(scale * d <= scale * 9 && (scale / 10) * 10 <= scale) by (nonlinear_arith)
                    requires
                        0 <= d <= 9,
                        0 <= scale,
                ;
            }
            v = v + scale * ((bytes[k] - 48) as u64);
            scale = scale / 10;
            digits = digits + 1;
            k = k + 1;
        }
        if digits == 0 {
            return None;
        }
    }
    if v > 0xffffffff {
        return None;
    }
    Some((v as u32, k))
}

/// Parse a quoted string of plain ASCII characters at `pos`.
fn p_string(bytes: &Vec<u8>, pos: usize) -> (r: Option<(String, usize)>)
    requires
        pos <= bytes@.len(),
    ensures
        r matches Some(p) ==> pos < p.1 <= bytes@.len(),
{
    let len = bytes.len();
    if pos >= len || bytes[pos] != 34 {
        return None;
    }
    let mut out = String::new();
    let mut k: usize = pos + 1;
    while k < len && bytes[k] != 34
        invariant
            pos < k <= len,
            len == bytes@.len(),
        decreases len - k,
    {
        let b = bytes[k];
        if b < 32 || b == 92 || b >= 128 {
            return None;
        }
        push_char(&mut out, b as char);
        k = k + 1;
    }
    if k >= len {
        return None;
    }
    Some((out, k + 1))
}

/// Parse a tile array at `pos`.
fn p_u8_list(bytes: &Vec<u8>, pos: usize) -> (r: Option<(Vec<u8>, usize)>)
    requires
        pos <= bytes@.len(),
    ensures
        r matches Some(p) ==> pos < p.1 <= bytes@.len(),
{
    let len = bytes.len();
    if pos >= len || bytes[pos] != 91 {
        return None;
    }
    let mut out: Vec<u8> = Vec::new();
    let mut k: usize = pos + 1;
    if k < len && bytes[k] == 93 {
        return Some((out, k + 1));
    }
    loop
        invariant
            pos < k <= len,
            len == bytes@.len(),
        decreases len - k,
    {
        let (v, k2) = match p_u32(bytes, k) {
            Some(p) => p,
            None => {
                return None;
            },
        };
        if v > 255 {
            return None;
        }
        out.push(v as u8);
        if k2 < len && bytes[k2] == 44 {
            k = k2 + 1;
        } else if k2 < len && bytes[k2] == 93 {
            return Some((out, k2 + 1));
        } else {
            return None;
        }
    }
}

/// Parse a pheromone level array at `pos`.
fn p_fixed_list(bytes: &Vec<u8>, pos: usize) -> (r: Option<(Vec<u32>, usize)>)
    requires
        pos <= bytes@.len(),
    ensures
        r matches Some(p) ==> pos < p.1 <= bytes@.len(),
{
    let len = bytes.len();
    if pos >= len || bytes[pos] != 91 {
        return None;
    }
    let mut out: Vec<u32> = Vec::new();
    let mut k: usize = pos + 1;
    if k < len && bytes[k] == 93 {
        return Some((out, k + 1));
    }
    loop
        invariant
            pos < k <= len,
            len == bytes@.len(),
        decreases len - k,
    {
        let (v, k2) = match p_fixed(bytes, k) {
            Some(p) => p,
            None => {
                return None;
            },
        };
        out.push(v);
        if k2 < len && bytes[k2] == 44 {
            k = k2 + 1;
        } else if k2 < len && bytes[k2] == 93 {
            return Some((out, k2 + 1));
        } else {
            return None;
        }
    }
}

/// Parse a string array at `pos`.
fn p_str_list(bytes: &Vec<u8>, pos: usize) -> (r: Option<(Vec<String>, usize)>)
    requires
        pos <= bytes@.len(),
    ensures
        r matches Some(p) ==> pos < p.1 <= bytes@.len(),
{
    let len = bytes.len();
    if pos >= len || bytes[pos] != 91 {
        return None;
    }
    let mut out: Vec<String> = Vec::new();
    let mut k: usize = pos + 1;
    if k < len && bytes[k] == 93 {
        return Some((out, k + 1));
    }
    loop
        invariant
            pos < k <= len,
            len == bytes@.len(),
        decreases len - k,
    {
        let (s, k2) = match p_string(bytes, k) {
            Some(p) => p,
            None => {
                return None;
            },
        };
        out.push(s);
        if k2 < len && bytes[k2] == 44 {
            k = k2 + 1;
        } else if k2 < len && bytes[k2] == 93 {
            return Some((out, k2 + 1));
        } else {
            return None;
        }
    }
}

/// Parse a maze object at `pos`.
fn p_maze(bytes: &Vec<u8>, pos: usize) -> (r: Option<(crate::maze::Maze, usize)>)
    requires
        pos <= bytes@.len(),
    ensures
        r matches Some(p) ==> pos <= p.1 <= bytes@.len(),
{
    let k = match p_lit(bytes, pos, "{\"nbColumn\":") {
        Some(k) => k,
        None => {
            return None;
        },
    };
    let (w, k) = match p_u32(bytes, k) {
        Some(p) => p,
        None => {
            return None;
        },
    };
    let k = match p_lit(bytes, k, ",\"nbLine\":") {
        Some(k) => k,
        None => {
            return None;
        },
    };
    let (h, k) = match p_u32(bytes, k) {
        Some(p) => p,
        None => {
            return None;
        },
    };
    let k = match p_lit(bytes, k, ",\"nestColumn\":") {
        Some(k) => k,
        None => {
            return None;
        },
    };
    let (nx, k) = match p_u32(bytes, k) {
        Some(p) => p,
        None => {
            return None;
        },
    };
    let k = match p_lit(bytes, k, ",\"nestLine\":") {
        Some(k) => k,
        None => {
            return None;
        },
    };
    let (ny, k) = match p_u32(bytes, k) {
        Some(p) => p,
        None => {
            return None;
        },
    };
    let k = match p_lit(bytes, k, ",\"tiles\":") {
        Some(k) => k,
        None => {
            return None;
        },
    };
    let (tiles, k) = match p_u8_list(bytes, k) {
        Some(p) => p,
        None => {
            return None;
        },
    };
    let k = match p_lit(bytes, k, "}") {
        Some(k) => k,
        None => {
            return None;
        },
    };
    Some(
        (
            crate::maze::Maze {
                nb_column: w,
                nb_line: h,
                nest_column: nx,
                nest_line: ny,
                tiles,
            },
            k,
        ),
    )
}

/// Parse an error value at `pos`.
fn p_error(bytes: &Vec<u8>, pos: usize) -> (r: Option<(ServerError, usize)>)
    requires
        pos <= bytes@.len(),
    ensures
        r matches Some(p) ==> pos <= p.1 <= bytes@.len(),
{
    if let Some(k) = p_lit(bytes, pos, "\"AlreadyConnected\"") {
        return Some((ServerError::AlreadyConnected, k));
    }
    if let Some(k) = p_lit(bytes, pos, "\"UnexpectedParameter\"") {
        return Some((ServerError::UnexpectedParameter, k));
    }
    if let Some(k) = p_lit(bytes, pos, "{\"InvalidMaze\":") {
        if let Some((s, k2)) = p_string(bytes, k) {
            if let Some(k3) = p_lit(bytes, k2, "}") {
                return Some((ServerError::InvalidMaze(s), k3));
            }
        }
        return None;
    }
    if let Some(k) = p_lit(bytes, pos, "{\"Transmission\":") {
        if let Some((s, k2)) = p_string(bytes, k) {
            if let Some(k3) = p_lit(bytes, k2, "}") {
                return Some((ServerError::Transmission(s), k3));
            }
        }
        return None;
    }
    if let Some(k) = p_lit(bytes, pos, "{\"SerializerError\":") {
        if let Some((s, k2)) = p_string(bytes, k) {
            if let Some(k3) = p_lit(bytes, k2, "}") {
                return Some((ServerError::SerializerError(s), k3));
            }
        }
        return None;
    }
    if let Some(k) = p_lit(bytes, pos, "{\"Other\":") {
        if let Some((s, k2)) = p_string(bytes, k) {
            if let Some(k3) = p_lit(bytes, k2, "}") {
                return Some((ServerError::Other(s), k3));
            }
        }
        return None;
    }
    None
}

/// Parse one message object at `pos`, recursing at most `fuel` levels
/// into nested messages.
fn p_message(bytes: &Vec<u8>, pos: usize, fuel: usize) -> (r: Option<(Message, usize)>)
    requires
        pos <= bytes@.len(),
    ensures
        r matches Some(p) ==> pos <= p.1 <= bytes@.len(),
        forall|d: crate::messages::MoveDirection|
            pos == 0 && fuel >= 1 && bytes@ == ascii_of(
                #[trigger] enc_message(MessageV::Move(d)),
            ) ==> (r matches Some(p) && p.0@ == MessageV::Move(d) && p.1 == bytes@.len()),
    decreases fuel,
{
    if fuel == 0 {
        return None;
    }
    if let Some(k) = p_lit(bytes, pos, "{\"type\":\"join\",\"body\":{\"difficulty\":") {
        proof {
            assert forall|d: crate::messages::MoveDirection|
                !(pos == 0 && bytes@ == ascii_of(#[trigger] enc_message(MessageV::Move(d)))) by {
                if pos == 0 && bytes@ == ascii_of(enc_message(MessageV::Move(d))) {
                    lemma_move_head_unique(bytes@, d);
                }
            }
        }
        if let Some((d, k2)) = p_u32(bytes, k) {
            if let Some(k3) = p_lit(bytes, k2, ",\"playerId\":") {
                if let Some(k4) = p_lit(bytes, k3, "null") {
                    if let Some(k5) = p_lit(bytes, k4, "}}") {
                        return Some(
                            (
                                Message::Join(
                                    crate::messages::JoinMessageBody {
                                        difficulty: d,
                                        player_id: None,
                                    },
                                ),
                                k5,
                            ),
                        );
                    }
                    return None;
                }
                if let Some(k4) = p_lit(bytes, k3, "\"") {
                    if let Some((id, k5)) = p_uuid(bytes, k4) {
                        if let Some(k6) = p_lit(bytes, k5, "\"}}") {
                            return Some(
                                (
                                    Message::Join(
                                        crate::messages::JoinMessageBody {
                                            difficulty: d,
                                            player_id: Some(id),
                                        },
                                    ),
                                    k6,
                                ),
                            );
                        }
                    }
                }
            }
        }
        return None;
    }
    if let Some(k) = p_lit(bytes, pos, "{\"type\":\"okMaze\",\"body\":{\"maze\":") {
        proof {
            assert forall|d: crate::messages::MoveDirection|
                !(pos == 0 && bytes@ == ascii_of(#[trigger] enc_message(MessageV::Move(d)))) by {
                if pos == 0 && bytes@ == ascii_of(enc_message(MessageV::Move(d))) {
                    lemma_move_head_unique(bytes@, d);
                }
            }
        }
        if let Some((maze, k2)) = p_maze(bytes, k) {
            if let Some(k3) = p_lit(bytes, k2, ",\"playerId\":\"") {
                if let Some((id, k4)) = p_uuid(bytes, k3) {
                    if let Some(k5) = p_lit(bytes, k4, "\"}}") {
                        return Some(
                            (
                                Message::OkMaze(
                                    crate::messages::OkMazeMessageBody { maze, player_id: id },
                                ),
                                k5,
                            ),
                        );
                    }
                }
            }
        }
        return None;
    }
    if let Some(k) = p_lit(bytes, pos, "{\"type\":\"info\",\"body\":{\"playerColumn\":") {
        proof {
            assert forall|d: crate::messages::MoveDirection|
                !(pos == 0 && bytes@ == ascii_of(#[trigger] enc_message(MessageV::Move(d)))) by {
                if pos == 0 && bytes@ == ascii_of(enc_message(MessageV::Move(d))) {
                    lemma_move_head_unique(bytes@, d);
                }
            }
        }
        if let Some((c, k2)) = p_u32(bytes, k) {
            if let Some(k3) = p_lit(bytes, k2, ",\"playerLine\":") {
                if let Some((l, k4)) = p_u32(bytes, k3) {
                    if let Some(k5) = p_lit(bytes, k4, ",\"playerHasFood\":") {
                        if let Some((hf, k6)) = p_bool(bytes, k5) {
                            if let Some(k7) = p_lit(bytes, k6, ",\"pheromon\":") {
                                if let Some((ph, k8)) = p_fixed_list(bytes, k7) {
                                    if let Some(k9) = p_lit(bytes, k8, "}}") {
                                        return Some(
                                            (
                                                Message::Info(
                                                    crate::messages::InfoMessageBody {
                                                        player_column: c,
                                                        player_line: l,
                                                        player_has_food: hf,
                                                        pheromon: ph,
                                                    },
                                                ),
                                                k9,
                                            ),
                                        );
                                    }
                                }
                            }
                        }
                    }
                }
            }
        }
        return None;
    }
    if let Some(k) = p_lit(bytes, pos, "{\"type\":\"error\",\"body\":") {
        proof {
            assert forall|d: crate::messages::MoveDirection|
                !(pos == 0 && bytes@ == ascii_of(#[trigger] enc_message(MessageV::Move(d)))) by {
                if pos == 0 && bytes@ == ascii_of(enc_message(MessageV::Move(d))) {
                    lemma_move_head_unique(bytes@, d);
                }
            }
        }
        if let Some((e, k2)) = p_error(bytes, k) {
            if let Some(k3) = p_lit(bytes, k2, "}") {
                return Some((Message::Error(e), k3));
            }
        }
        return None;
    }
    if let Some(k) = p_lit(bytes, pos, "{\"type\":\"move\",\"body\":{\"direction\":") {
        if let Some((code, k2)) = p_u32(bytes, k) {
            if let Some(dir) = crate::messages::MoveDirection::from_code(code) {
                if let Some(k3) = p_lit(bytes, k2, "}}") {
                    proof {
                        assert forall|d: crate::messages::MoveDirection|
                            pos == 0 && bytes@ == ascii_of(
                                #[trigger] enc_message(MessageV::Move(d)),
                            ) implies dir == d && k3 == bytes@.len() by {
                            lemma_move_head_unique(bytes@, d);
                            lemma_move_encoding(bytes@, d);
                            assert(k == 35);
                            assert(code == d.spec_code());
                            lemma_direction_code_injective(dir, d);
                        }
                    }
                    return Some(
                        (Message::Move(crate::messages::MoveMessageBody { direction: dir }), k3),
                    );
                }
            }
        }
        proof {
            assert forall|d: crate::messages::MoveDirection|
                !(pos == 0 && bytes@ == ascii_of(#[trigger] enc_message(MessageV::Move(d)))) by {
                if pos == 0 && bytes@ == ascii_of(enc_message(MessageV::Move(d))) {
                    lemma_move_head_unique(bytes@, d);
                    lemma_move_encoding(bytes@, d);
                    assert(k == 35);
                }
            }
        }
        return None;
    }
    proof {
        assert forall|d: crate::messages::MoveDirection|
            !(pos == 0 && bytes@ == ascii_of(#[trigger] enc_message(MessageV::Move(d)))) by {
            if pos == 0 && bytes@ == ascii_of(enc_message(MessageV::Move(d))) {
                lemma_move_head_unique(bytes@, d);
                lemma_move_encoding(bytes@, d);
            }
        }
    }
    if let Some(k) = p_lit(bytes, pos, "{\"type\":\"unexpected\",\"body\":{\"expected\":") {
        if let Some((expected, k2)) = p_str_list(bytes, k) {
            if let Some(k3) = p_lit(bytes, k2, ",\"received\":") {
                if let Some((inner, k4)) = p_message(bytes, k3, fuel - 1) {
                    if let Some(k5) = p_lit(bytes, k4, "}}") {
                        return Some(
                            (Message::Unexpected { expected, received: Box::new(inner) }, k5),
                        );
                    }
                }
            }
        }
        return None;
    }
    None
}

/// Decode a message from its JSON bytes.
///
/// Exactly the canonical spelling is accepted: on success, the returned
/// message re-encodes byte for byte to the input. Anything else fails with
/// a serializer error. For a canonical `move` message the decode is also
/// complete: it returns exactly the encoded value.
pub fn decode_message(bytes: &Vec<u8>) -> (r: Result<Message, ServerError>)
    ensures
        r matches Ok(m) ==> {
            &&& vstd::utf8::is_ascii_chars(enc_message(m@))
            &&& bytes@ == ascii_of(enc_message(m@))
        },
        r matches Err(e) ==> e is SerializerError,
        forall|d: crate::messages::MoveDirection|
            bytes@ == ascii_of(#[trigger] enc_message(MessageV::Move(d))) ==> (r matches Ok(m)
                && m@ == MessageV::Move(d)),
{
    let parsed = p_message(bytes, 0, bytes.len());
    let (m, end) = match parsed {
        Some(p) => p,
        None => {
            proof {
                assert forall|d: crate::messages::MoveDirection|
                    bytes@ != ascii_of(#[trigger] enc_message(MessageV::Move(d))) by {
                    if bytes@ == ascii_of(enc_message(MessageV::Move(d))) {
                        lemma_move_encoding(bytes@, d);
                    }
                }
            }
            return Err(
                ServerError::SerializerError(String::from_str("Malformed message")),
            );
        },
    };
    if end != bytes.len() {
        proof {
            assert forall|d: crate::messages::MoveDirection|
                bytes@ != ascii_of(#[trigger] enc_message(MessageV::Move(d))) by {
                if bytes@ == ascii_of(enc_message(MessageV::Move(d))) {
                    lemma_move_encoding(bytes@, d);
                }
            }
        }
        return Err(ServerError::SerializerError(String::from_str("Trailing bytes")));
    }
    let enc = encode_message(&m);
    let es = enc.as_str();
    if !es.is_ascii() {
        proof {
            assert forall|d: crate::messages::MoveDirection|
                bytes@ != ascii_of(#[trigger] enc_message(MessageV::Move(d))) by {
                if bytes@ == ascii_of(enc_message(MessageV::Move(d))) {
                    lemma_move_encoding(bytes@, d);
                }
            }
        }
        return Err(ServerError::SerializerError(String::from_str("Unencodable message")));
    }
    let eb = es.as_bytes();
    proof {
        broadcast use vstd::string::is_ascii_spec_bytes;

        assert(vstd::string::is_ascii(es));
        assert(eb@ =~= ascii_of(enc_message(m@)));
        assert forall|d: crate::messages::MoveDirection|
            bytes@ == ascii_of(#[trigger] enc_message(MessageV::Move(d))) implies eb@
            == bytes@ by {
            lemma_move_encoding(bytes@, d);
        }
    }
    if eb.len() != bytes.len() {
        return Err(ServerError::SerializerError(String::from_str("Not in canonical form")));
    }
    let n = eb.len();
    let mut k: usize = 0;
    while k < n
        invariant
            0 <= k <= n,
            n == eb@.len(),
            n == bytes@.len(),
            forall|j: int| 0 <= j < k ==> #[trigger] eb@[j] == bytes@[j],
            forall|d: crate::messages::MoveDirection|
                bytes@ == ascii_of(#[trigger] enc_message(MessageV::Move(d))) ==> eb@ == bytes@,
        decreases n - k,
    {
        if eb[k] != bytes[k] {
            return Err(
                ServerError::SerializerError(String::from_str("Not in canonical form")),
            );
        }
        k = k + 1;
    }
    proof {
        broadcast use vstd::string::is_ascii_spec_bytes;

        assert(vstd::string::is_ascii(es));
        assert(bytes@ =~= eb@);
        assert(eb@ =~= ascii_of(enc_message(m@)));
    }
    Ok(m)
}

} // verus!
