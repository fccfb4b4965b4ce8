//! Versioned persistence of traversal state: the durable record shape, its
//! exact JSON text, and the reading that restores a state from it. Records of
//! a foreign schema version restore to nothing rather than failing the load.
use crate::scenario::{clone_strings, depth_of, Current, StateV};
use crate::strutil::{char_from_u32, chars_to_string, str_to_chars};
use vstd::arithmetic::div_mod::lemma_fundamental_div_mod;
use vstd::prelude::*;
use vstd::string::StrSliceExecFns;

verus! {

/// The single schema version this build writes and restores.
pub const SCHEMA_VERSION: u8 = 1;

/// A durable snapshot of a traversal state, tagged with the schema version.
#[derive(Debug)]
pub struct SaveData {
    pub version: u8,
    pub current: String,
    pub depth: usize,
    pub trail: Vec<String>,
}

/// Mathematical model of a save record.
pub ghost struct SaveDataV {
    pub version: int,
    pub current: Seq<char>,
    pub depth: int,
    pub trail: Seq<Seq<char>>,
}

impl View for SaveData {
    type V = SaveDataV;

    open spec fn view(&self) -> SaveDataV {
        SaveDataV {
            version: self.version as int,
            current: self.current@,
            depth: self.depth as int,
            trail: self.trail.deep_view(),
        }
    }
}

/// The record a state is persisted as: the current schema version and the
/// state's fields, flattened.
pub open spec fn record_of(st: StateV) -> SaveDataV {
    SaveDataV { version: SCHEMA_VERSION as int, current: st.id, depth: st.depth, trail: st.trail }
}

/// The state a record restores to: nothing when the record bears a foreign
/// schema version, the recorded position otherwise. The depth is always
/// recomputed from the identifier, never taken from the recorded field, so a
/// drifted or tampered record cannot break the depth invariant.
pub open spec fn state_of(rec: SaveDataV) -> Option<StateV> {
    if rec.version == SCHEMA_VERSION as int {
        Some(StateV { id: rec.current, depth: depth_of(rec.current), trail: rec.trail })
    } else {
        None
    }
}

/// Restoring a freshly written record yields exactly the state it was written
/// from, for every state whose depth agrees with its identifier — as it does
/// in every state the engine builds.
pub proof fn lemma_save_round_trip(st: StateV)
    requires
        st.depth == depth_of(st.id),
    ensures
        state_of(record_of(st)) == Some(st),
{
}

impl SaveData {
    /// Snapshot a traversal state into a record of the current schema
    /// version.
    pub fn from_state(current: &Current) -> (r: SaveData)
        ensures
            r@ == record_of(current@),
    {
        SaveData {
            version: SCHEMA_VERSION,
            current: current.id.clone(),
            depth: current.depth,
            trail: clone_strings(&current.trail),
        }
    }

    /// Restore the traversal state a record holds: `None` exactly when the
    /// record bears a schema version other than the current one. The depth of
    /// the restored state is derived from its identifier, never copied from
    /// the recorded field.
    pub fn to_state(&self) -> (r: Option<Current>)
        ensures
            match r {
                Some(c) => state_of(self@) == Some(c@),
                None => state_of(self@) is None,
            },
            r matches Some(c) ==> c@.depth == depth_of(c@.id),
    {
        if self.version != SCHEMA_VERSION {
            return None;
        }
        let len = self.current.as_str().unicode_len();
        let depth: usize = if len >= 1 {
            len - 1
        } else {
            0
        };
        Some(Current { id: self.current.clone(), depth, trail: clone_strings(&self.trail) })
    }
}

/// The decimal digit character of a value below ten.
pub open spec fn digit_char(d: nat) -> char {
    if d == 0 {
        '0'
    } else if d == 1 {
        '1'
    } else if d == 2 {
        '2'
    } else if d == 3 {
        '3'
    } else if d == 4 {
        '4'
    } else if d == 5 {
        '5'
    } else if d == 6 {
        '6'
    } else if d == 7 {
        '7'
    } else if d == 8 {
        '8'
    } else {
        '9'
    }
}

/// The lowercase hexadecimal digit character of a value below sixteen.
pub open spec fn hex_char(d: nat) -> char {
    if d < 10 {
        digit_char(d)
    } else if d == 10 {
        'a'
    } else if d == 11 {
        'b'
    } else if d == 12 {
        'c'
    } else if d == 13 {
        'd'
    } else if d == 14 {
        'e'
    } else {
        'f'
    }
}

/// The decimal digits of `n`, most significant first.
pub open spec fn dec_rep(n: nat) -> Seq<char>
    decreases n,
{
    if n < 10 {
        seq![digit_char(n)]
    } else {
        dec_rep(n / 10) + seq![digit_char(n % 10)]
    }
}

/// The escaped JSON form of one character: quote and backslash are escaped,
/// control characters take their four-digit form, all else stands as itself.
pub open spec fn escape_char(c: char) -> Seq<char> {
    if c == '"' {
        seq!['\\', '"']
    } else if c == '\\' {
        seq!['\\', '\\']
    } else if (c as u32) < 32 {
        seq!['\\', 'u', '0', '0', hex_char((c as u32 / 16) as nat), hex_char((c as u32 % 16) as nat)]
    } else {
        seq![c]
    }
}

/// The escaped JSON form of a string's characters.
pub open spec fn escape_str(s: Seq<char>) -> Seq<char>
    decreases s.len(),
{
    if s.len() == 0 {
        Seq::empty()
    } else {
        escape_str(s.drop_last()) + escape_char(s.last())
    }
}

/// A string as a JSON string literal: quoted and escaped.
pub open spec fn quoted(s: Seq<char>) -> Seq<char> {
    seq!['"'] + escape_str(s) + seq!['"']
}

/// The comma-separated JSON string literals of the trail, in trail order.
pub open spec fn trail_items(trail: Seq<Seq<char>>) -> Seq<char>
    decreases trail.len(),
{
    if trail.len() == 0 {
        Seq::empty()
    } else if trail.len() == 1 {
        quoted(trail[0])
    } else {
        trail_items(trail.drop_last()) + seq![','] + quoted(trail.last())
    }
}

/// The JSON text a record is persisted as.
pub open spec fn json_of_record(rec: SaveDataV) -> Seq<char> {
    "{\"version\":"@ + dec_rep(rec.version as nat) + ",\"current\":"@ + quoted(rec.current)
        + ",\"depth\":"@ + dec_rep(rec.depth as nat) + ",\"trail\":["@ + trail_items(rec.trail)
        + "]}"@
}

/// The decimal digit character of a value below ten.
fn digit_char_exec(d: usize) -> (c: char)
    requires
        d < 10,
    ensures
        c == digit_char(d as nat),
{
    if d == 0 {
        '0'
    } else if d == 1 {
        '1'
    } else if d == 2 {
        '2'
    } else if d == 3 {
        '3'
    } else if d == 4 {
        '4'
    } else if d == 5 {
        '5'
    } else if d == 6 {
        '6'
    } else if d == 7 {
        '7'
    } else if d == 8 {
        '8'
    } else {
        '9'
    }
}

/// The lowercase hexadecimal digit character of a value below sixteen.
fn hex_char_exec(d: u32) -> (c: char)
    requires
        d < 16,
    ensures
        c == hex_char(d as nat),
{
    if d < 10 {
        digit_char_exec(d as usize)
    } else if d == 10 {
        'a'
    } else if d == 11 {
        'b'
    } else if d == 12 {
        'c'
    } else if d == 13 {
        'd'
    } else if d == 14 {
        'e'
    } else {
        'f'
    }
}

/// Append the decimal digits of `n`, most significant first.
fn push_decimal(out: &mut Vec<char>, n: usize)
    ensures
        final(out)@ == old(out)@ + dec_rep(n as nat),
    decreases n,
{
    if n < 10 {
        out.push(digit_char_exec(n));
        proof {
            assert(out@ =~= old(out)@ + dec_rep(n as nat));
        }
    } else {
        push_decimal(out, n / 10);
        out.push(digit_char_exec(n % 10));
        proof {
            assert(out@ =~= old(out)@ + dec_rep(n as nat));
        }
    }
}

/// Append the escaped JSON form of a string's characters.
fn push_escaped(out: &mut Vec<char>, s: &str)
    ensures
        final(out)@ == old(out)@ + escape_str(s@),
{
    let n = s.unicode_len();
    let mut i: usize = 0;
    proof {
        assert(out@ =~= old(out)@ + escape_str(s@.take(0)));
    }
    while i < n
        invariant
            i <= n,
            n == s@.len(),
            out@ == old(out)@ + escape_str(s@.take(i as int)),
        decreases n - i,
    {
        let c = s.get_char(i);
        if c == '"' {
            out.push('\\');
            out.push('"');
        } else if c == '\\' {
            out.push('\\');
            out.push('\\');
        } else if (c as u32) < 32 {
            let code = c as u32;
            out.push('\\');
            out.push('u');
            out.push('0');
            out.push('0');
            out.push(hex_char_exec(code / 16));
            out.push(hex_char_exec(code % 16));
        } else {
            out.push(c);
        }
        i += 1;
        proof {
            assert(s@.take(i as int).drop_last() =~= s@.take(i as int - 1));
            assert(s@.take(i as int).last() == s@[i as int - 1]);
            assert(out@ =~= old(out)@ + escape_str(s@.take(i as int)));
        }
    }
    proof {
        assert(s@.take(n as int) =~= s@);
    }
}

/// Append a string as a JSON string literal.
fn push_quoted(out: &mut Vec<char>, s: &str)
    ensures
        final(out)@ == old(out)@ + quoted(s@),
{
    out.push('"');
    push_escaped(out, s);
    out.push('"');
    proof {
        assert(out@ =~= old(out)@ + quoted(s@));
    }
}

/// Append every character of a string slice.
fn push_str_chars(out: &mut Vec<char>, s: &str)
    ensures
        final(out)@ == old(out)@ + s@,
{
    let n = s.unicode_len();
    let mut i: usize = 0;
    while i < n
        invariant
            i <= n,
            n == s@.len(),
            out@ == old(out)@ + s@.take(i as int),
        decreases n - i,
    {
        out.push(s.get_char(i));
        i += 1;
        proof {
            assert(out@ =~= old(out)@ + s@.take(i as int));
        }
    }
    proof {
        assert(s@.take(n as int) =~= s@);
    }
}

/// Serialize a record to exactly the JSON text `json_of_record` describes.
pub fn encode_save(rec: &SaveData) -> (r: String)
    ensures
        r@ == json_of_record(rec@),
{
    let mut out: Vec<char> = Vec::new();
    push_str_chars(&mut out, "{\"version\":");
    push_decimal(&mut out, rec.version as usize);
    push_str_chars(&mut out, ",\"current\":");
    push_quoted(&mut out, rec.current.as_str());
    push_str_chars(&mut out, ",\"depth\":");
    push_decimal(&mut out, rec.depth);
    push_str_chars(&mut out, ",\"trail\":[");
    let ghost head = out@;
    let mut i: usize = 0;
    while i < rec.trail.len()
        invariant
            i <= rec.trail.len(),
            out@ == head + trail_items(rec@.trail.take(i as int)),
        decreases rec.trail.len() - i,
    {
        if i > 0 {
            out.push(',');
        }
        push_quoted(&mut out, rec.trail[i].as_str());
        i += 1;
        proof {
            assert(rec@.trail.take(i as int).drop_last() =~= rec@.trail.take(i as int - 1));
            assert(rec@.trail.take(i as int).last() == rec@.trail[i as int - 1]);
            assert(rec@.trail[i as int - 1] == rec.trail@[i as int - 1]@);
            assert(out@ =~= head + trail_items(rec@.trail.take(i as int)));
        }
    }
    push_str_chars(&mut out, "]}");
    proof {
        assert(rec@.trail.take(rec.trail.len() as int) =~= rec@.trail);
        assert(out@ =~= json_of_record(rec@));
    }
    chars_to_string(&out)
}

/// Why a persisted record could not be read at all. A foreign schema version
/// is not an error: it restores to nothing instead.
#[derive(Debug, Clone, Copy, PartialEq, Eq, Structural)]
pub enum SaveLoadError {
    /// The text is not a well-formed save record document.
    Malformed,
}

/// The numeric value of a decimal digit character, or nothing.
pub open spec fn digit_val(c: char) -> Option<nat> {
    if c == '0' {
        Some(0nat)
    } else if c == '1' {
        Some(1nat)
    } else if c == '2' {
        Some(2nat)
    } else if c == '3' {
        Some(3nat)
    } else if c == '4' {
        Some(4nat)
    } else if c == '5' {
        Some(5nat)
    } else if c == '6' {
        Some(6nat)
    } else if c == '7' {
        Some(7nat)
    } else if c == '8' {
        Some(8nat)
    } else if c == '9' {
        Some(9nat)
    } else {
        None
    }
}

/// The numeric value of a hexadecimal digit character of either case, or
/// nothing.
pub open spec fn hex_val(c: char) -> Option<nat> {
    if c == 'a' || c == 'A' {
        Some(10nat)
    } else if c == 'b' || c == 'B' {
        Some(11nat)
    } else if c == 'c' || c == 'C' {
        Some(12nat)
    } else if c == 'd' || c == 'D' {
        Some(13nat)
    } else if c == 'e' || c == 'E' {
        Some(14nat)
    } else if c == 'f' || c == 'F' {
        Some(15nat)
    } else {
        digit_val(c)
    }
}

/// Ten to the `k`-th power.
pub open spec fn pow10(k: nat) -> nat
    decreases k,
{
    if k == 0 {
        1nat
    } else {
        10 * pow10((k - 1) as nat)
    }
}

/// Read the longest decimal-digit prefix of `s`, folding its value onto
/// `acc`, and leave the rest.
pub open spec fn read_nat(s: Seq<char>, acc: nat) -> (nat, Seq<char>)
    decreases s.len(),
{
    if s.len() == 0 {
        (acc, s)
    } else {
        match digit_val(s[0]) {
            Some(d) => read_nat(s.skip(1), acc * 10 + d),
            None => (acc, s),
        }
    }
}

/// A digit character reads back as its value.
proof fn lemma_digit_val_of_digit_char(d: nat)
    requires
        d < 10,
    ensures
        digit_val(digit_char(d)) == Some(d),
{
}

/// Reading the decimal digits of `n` folds `n` onto the accumulator, shifted
/// past the digits already read, and goes on with what follows.
proof fn lemma_read_dec_rep(n: nat, rest: Seq<char>, acc: nat)
    ensures
        read_nat(dec_rep(n) + rest, acc) == read_nat(rest, acc * pow10(dec_rep(n).len()) + n),
    decreases n,
{
    if n < 10 {
        lemma_digit_val_of_digit_char(n);
        assert(dec_rep(n) + rest =~= seq![digit_char(n)] + rest);
        assert((seq![digit_char(n)] + rest).skip(1) =~= rest);
        assert(pow10(0) == 1);
        assert(pow10(1) == 10);
    } else {
        let d = n % 10;
        let q = n / 10;
        let k = dec_rep(q).len();
        assert(dec_rep(n) + rest =~= dec_rep(q) + (seq![digit_char(d)] + rest));
        lemma_read_dec_rep(q, seq![digit_char(d)] + rest, acc);
        lemma_digit_val_of_digit_char(d);
        assert((seq![digit_char(d)] + rest).skip(1) =~= rest);
        assert(read_nat(seq![digit_char(d)] + rest, acc * pow10(k) + q) == read_nat(
            rest,
            (acc * pow10(k) + q) * 10 + d,
        ));
        assert(q * 10 + d == n) by (nonlinear_arith)
            requires
                q == n / 10,
                d == n % 10,
        ;
        assert((acc * pow10(k) + q) * 10 + d == acc * (10 * pow10(k)) + (q * 10 + d))
            by (nonlinear_arith);
        assert(pow10(k + 1) == 10 * pow10(k));
        assert(dec_rep(n).len() == k + 1);
    }
}

/// The JSON whitespace characters.
pub open spec fn is_ws(c: char) -> bool {
    c == ' ' || c == '\t' || c == '\n' || c == '\r'
}

/// `s` without its leading whitespace.
pub open spec fn skip_ws(s: Seq<char>) -> Seq<char>
    decreases s.len(),
{
    if s.len() > 0 && is_ws(s[0]) {
        skip_ws(s.skip(1))
    } else {
        s
    }
}

/// Whether `p` is the leading text of `s`.
pub open spec fn text_starts_with(s: Seq<char>, p: Seq<char>) -> bool {
    p.len() <= s.len() && s.take(p.len() as int) == p
}

/// The rest of `s` after one expected character, whitespace before it
/// allowed.
pub open spec fn expect_char(s: Seq<char>, c: char) -> Option<Seq<char>> {
    let t = skip_ws(s);
    if t.len() > 0 && t[0] == c {
        Some(t.skip(1))
    } else {
        None
    }
}

/// The rest of `s` after an expected verbatim token, whitespace before it
/// allowed.
pub open spec fn expect_token(s: Seq<char>, token: Seq<char>) -> Option<Seq<char>> {
    let t = skip_ws(s);
    if text_starts_with(t, token) {
        Some(t.skip(token.len() as int))
    } else {
        None
    }
}

/// Read a decimal number of at least one digit, whitespace before it
/// allowed.
pub open spec fn read_number(s: Seq<char>) -> Option<(nat, Seq<char>)> {
    let t = skip_ws(s);
    if t.len() > 0 && digit_val(t[0]) is Some {
        Some(read_nat(t, 0))
    } else {
        None
    }
}

/// Text that does not begin with whitespace is left as it is.
proof fn lemma_skip_ws_id(s: Seq<char>)
    requires
        s.len() == 0 || !is_ws(s[0]),
    ensures
        skip_ws(s) == s,
{
}

/// A decimal rendering begins with a digit.
proof fn lemma_dec_rep_first_digit(n: nat)
    ensures
        dec_rep(n).len() >= 1,
        digit_val(dec_rep(n)[0]) is Some,
        !is_ws(dec_rep(n)[0]),
    decreases n,
{
    if n < 10 {
        lemma_digit_val_of_digit_char(n);
    } else {
        lemma_dec_rep_first_digit(n / 10);
        assert(dec_rep(n)[0] == dec_rep(n / 10)[0]);
    }
}

/// Read the body of a JSON string literal up to its closing quote, undoing
/// the escapes of the JSON grammar — the short ones, and four-digit code
/// points outside the surrogate range — and leave the rest.
pub open spec fn read_jstring(s: Seq<char>, acc: Seq<char>) -> Option<(Seq<char>, Seq<char>)>
    decreases s.len(),
{
    if s.len() == 0 {
        None
    } else if s[0] == '"' {
        Some((acc, s.skip(1)))
    } else if s[0] == '\\' {
        if s.len() >= 2 && (s[1] == '"' || s[1] == '\\' || s[1] == '/') {
            read_jstring(s.skip(2), acc + seq![s[1]])
        } else if s.len() >= 2 && s[1] == 'b' {
            read_jstring(s.skip(2), acc + seq!['\u{0008}'])
        } else if s.len() >= 2 && s[1] == 'f' {
            read_jstring(s.skip(2), acc + seq!['\u{000C}'])
        } else if s.len() >= 2 && s[1] == 'n' {
            read_jstring(s.skip(2), acc + seq!['\n'])
        } else if s.len() >= 2 && s[1] == 'r' {
            read_jstring(s.skip(2), acc + seq!['\r'])
        } else if s.len() >= 2 && s[1] == 't' {
            read_jstring(s.skip(2), acc + seq!['\t'])
        } else if s.len() >= 6 && s[1] == 'u' && hex_val(s[2]) is Some && hex_val(s[3]) is Some
            && hex_val(s[4]) is Some && hex_val(s[5]) is Some {
            let v = 4096 * hex_val(s[2]).unwrap() + 256 * hex_val(s[3]).unwrap() + 16 * hex_val(
                s[4],
            ).unwrap() + hex_val(s[5]).unwrap();
            if 0xD800 <= v < 0xE000 {
                None
            } else {
                read_jstring(s.skip(6), acc + seq![(v as u32) as char])
            }
        } else {
            None
        }
    } else {
        read_jstring(s.skip(1), acc + seq![s[0]])
    }
}

/// A hexadecimal digit character reads back as its value.
proof fn lemma_hex_val_of_hex_char(d: nat)
    requires
        d < 16,
    ensures
        hex_val(hex_char(d)) == Some(d),
{
}

/// Reading the escaped form of one character takes up exactly that character.
proof fn lemma_read_escape(c: char, rest: Seq<char>, acc: Seq<char>)
    ensures
        read_jstring(escape_char(c) + rest, acc) == read_jstring(rest, acc + seq![c]),
{
    let s = escape_char(c) + rest;
    if c == '"' {
        assert(s.skip(2) =~= rest);
    } else if c == '\\' {
        assert(s.skip(2) =~= rest);
    } else if (c as u32) < 32 {
        let code = c as u32;
        let hi = (code / 16) as nat;
        let lo = (code % 16) as nat;
        lemma_hex_val_of_hex_char(hi);
        lemma_hex_val_of_hex_char(lo);
        lemma_digit_val_of_digit_char(0);
        assert(s.skip(6) =~= rest);
        assert(16 * hi + lo == code) by (nonlinear_arith)
            requires
                hi == code / 16,
                lo == code % 16,
        ;
        vstd::utf8::char_u32_cast(c, code);
        assert((4096 * 0 + 256 * 0 + 16 * hex_val(s[4]).unwrap() + hex_val(s[5]).unwrap()) as u32
            == code);
    } else {
        assert(s.skip(1) =~= rest);
    }
}

/// Escaping a string is escaping its head and then the tail.
proof fn lemma_escape_str_cons(t: Seq<char>)
    requires
        t.len() > 0,
    ensures
        escape_str(t) == escape_char(t[0]) + escape_str(t.skip(1)),
    decreases t.len(),
{
    if t.len() == 1 {
        assert(t.drop_last() =~= Seq::<char>::empty());
        assert(t.skip(1) =~= Seq::<char>::empty());
        assert(escape_str(t) =~= escape_char(t[0]) + escape_str(t.skip(1)));
    } else {
        lemma_escape_str_cons(t.drop_last());
        assert(t.drop_last()[0] == t[0]);
        assert(t.drop_last().skip(1) =~= t.skip(1).drop_last());
        assert(t.skip(1).last() == t.last());
        assert(escape_str(t) == escape_str(t.drop_last()) + escape_char(t.last()));
        assert(escape_str(t.skip(1)) == escape_str(t.skip(1).drop_last()) + escape_char(
            t.skip(1).last(),
        ));
        assert(escape_str(t) =~= escape_char(t[0]) + escape_str(t.skip(1)));
    }
}

/// Reading an escaped string followed by its closing quote yields exactly
/// that string and what follows the quote.
proof fn lemma_read_escaped_str(t: Seq<char>, rest: Seq<char>, acc: Seq<char>)
    ensures
        read_jstring(escape_str(t) + seq!['"'] + rest, acc) == Some::<(Seq<char>, Seq<char>)>(
            (acc + t, rest),
        ),
    decreases t.len(),
{
    if t.len() == 0 {
        let s = escape_str(t) + seq!['"'] + rest;
        assert(s =~= seq!['"'] + rest);
        assert(s[0] == '"');
        assert(s.skip(1) =~= rest);
        assert(acc + t =~= acc);
    } else {
        lemma_escape_str_cons(t);
        assert(escape_str(t) + seq!['"'] + rest =~= escape_char(t[0]) + (escape_str(t.skip(1))
            + seq!['"'] + rest));
        lemma_read_escape(t[0], escape_str(t.skip(1)) + seq!['"'] + rest, acc);
        lemma_read_escaped_str(t.skip(1), rest, acc + seq![t[0]]);
        assert(acc + seq![t[0]] + t.skip(1) =~= acc + t);
    }
}

/// Read a whole JSON string literal: an opening quote, then its body.
pub open spec fn read_quoted(s: Seq<char>) -> Option<(Seq<char>, Seq<char>)> {
    if s.len() > 0 && s[0] == '"' {
        read_jstring(s.skip(1), Seq::empty())
    } else {
        None
    }
}

/// Reading a quoted string yields exactly that string and what follows it.
proof fn lemma_read_quoted(t: Seq<char>, rest: Seq<char>)
    ensures
        read_quoted(quoted(t) + rest) == Some::<(Seq<char>, Seq<char>)>((t, rest)),
{
    let s = quoted(t) + rest;
    assert(s[0] == '"');
    assert(s.skip(1) =~= escape_str(t) + seq!['"'] + rest);
    lemma_read_escaped_str(t, rest, Seq::empty());
    assert(Seq::empty() + t =~= t);
}

/// Read one or more comma-separated JSON string items onto `acc`, up to the
/// closing bracket, whitespace between tokens allowed. `fuel` bounds the
/// number of separators; any bound at or above their count reads them all.
pub open spec fn read_items(s: Seq<char>, acc: Seq<Seq<char>>, fuel: nat) -> Option<
    (Seq<Seq<char>>, Seq<char>),
>
    decreases fuel,
{
    match read_quoted(skip_ws(s)) {
        None => None,
        Some((item, rest)) => {
            let t = skip_ws(rest);
            if t.len() > 0 && t[0] == ',' {
                if fuel == 0 {
                    None
                } else {
                    read_items(t.skip(1), acc.push(item), (fuel - 1) as nat)
                }
            } else if t.len() > 0 && t[0] == ']' {
                Some((acc.push(item), t.skip(1)))
            } else {
                None
            }
        },
    }
}

/// Read a JSON array of strings after its opening bracket: empty, or
/// comma-separated items, up to the closing bracket.
pub open spec fn read_trail(s: Seq<char>, fuel: nat) -> Option<(Seq<Seq<char>>, Seq<char>)> {
    let t = skip_ws(s);
    if t.len() > 0 && t[0] == ']' {
        Some((Seq::empty(), t.skip(1)))
    } else {
        read_items(s, Seq::empty(), fuel)
    }
}

/// Rendering a trail is rendering its head item and then the tail.
proof fn lemma_trail_items_cons(tr: Seq<Seq<char>>)
    requires
        tr.len() >= 2,
    ensures
        trail_items(tr) == quoted(tr[0]) + seq![','] + trail_items(tr.skip(1)),
    decreases tr.len(),
{
    if tr.len() == 2 {
        assert(tr.drop_last() =~= seq![tr[0]]);
        assert(tr.skip(1) =~= seq![tr[1]]);
        assert(trail_items(tr) =~= quoted(tr[0]) + seq![','] + trail_items(tr.skip(1)));
    } else {
        lemma_trail_items_cons(tr.drop_last());
        assert(tr.drop_last()[0] == tr[0]);
        assert(tr.drop_last().skip(1) =~= tr.skip(1).drop_last());
        assert(tr.skip(1).last() == tr.last());
        assert(tr.skip(1).len() == tr.len() - 1);
        assert(trail_items(tr) == trail_items(tr.drop_last()) + seq![','] + quoted(tr.last()));
        assert(trail_items(tr.drop_last()) == quoted(tr[0]) + seq![','] + trail_items(
            tr.skip(1).drop_last(),
        ));
        assert(trail_items(tr.skip(1)) == trail_items(tr.skip(1).drop_last()) + seq![','] + quoted(
            tr.skip(1).last(),
        ));
        assert(trail_items(tr) =~= quoted(tr[0]) + seq![','] + trail_items(tr.skip(1)));
    }
}

/// Reading the rendered items of a non-empty trail followed by the closing
/// bracket takes up exactly those items and leaves what follows the bracket.
proof fn lemma_read_items(tr: Seq<Seq<char>>, acc: Seq<Seq<char>>, rest: Seq<char>, fuel: nat)
    requires
        tr.len() >= 1,
        fuel >= tr.len() - 1,
    ensures
        read_items(trail_items(tr) + seq![']'] + rest, acc, fuel) == Some::<
            (Seq<Seq<char>>, Seq<char>),
        >((acc + tr, rest)),
    decreases tr.len(),
{
    let s = trail_items(tr) + seq![']'] + rest;
    if tr.len() == 1 {
        assert(s =~= quoted(tr[0]) + (seq![']'] + rest));
        assert(s[0] == '"');
        lemma_skip_ws_id(s);
        lemma_read_quoted(tr[0], seq![']'] + rest);
        let tail = seq![']'] + rest;
        lemma_skip_ws_id(tail);
        assert(tail[0] == ']');
        assert(tail.skip(1) =~= rest);
        assert(acc.push(tr[0]) =~= acc + tr);
    } else {
        lemma_trail_items_cons(tr);
        assert(s =~= quoted(tr[0]) + (seq![','] + (trail_items(tr.skip(1)) + seq![']'] + rest)));
        assert(s[0] == '"');
        lemma_skip_ws_id(s);
        lemma_read_quoted(tr[0], seq![','] + (trail_items(tr.skip(1)) + seq![']'] + rest));
        let tail = seq![','] + (trail_items(tr.skip(1)) + seq![']'] + rest);
        lemma_skip_ws_id(tail);
        assert(tail[0] == ',');
        assert(tail.skip(1) =~= trail_items(tr.skip(1)) + seq![']'] + rest);
        lemma_read_items(tr.skip(1), acc.push(tr[0]), rest, (fuel - 1) as nat);
        assert(acc.push(tr[0]) + tr.skip(1) =~= acc + tr);
    }
}

/// Reading the rendered trail followed by its closing bracket yields exactly
/// the trail and what follows the bracket.
proof fn lemma_read_trail(tr: Seq<Seq<char>>, rest: Seq<char>, fuel: nat)
    requires
        fuel >= tr.len(),
    ensures
        read_trail(trail_items(tr) + seq![']'] + rest, fuel) == Some::<(Seq<Seq<char>>, Seq<char>)>(
            (tr, rest),
        ),
{
    let s = trail_items(tr) + seq![']'] + rest;
    if tr.len() == 0 {
        assert(s =~= seq![']'] + rest);
        lemma_skip_ws_id(s);
        assert(s[0] == ']');
        assert(s.skip(1) =~= rest);
    } else {
        if tr.len() == 1 {
            assert(s[0] == quoted(tr[0])[0]);
        } else {
            lemma_trail_items_cons(tr);
            assert(s[0] == quoted(tr[0])[0]);
        }
        assert(s[0] == '"');
        lemma_skip_ws_id(s);
        lemma_read_items(tr, Seq::empty(), rest, fuel);
        assert(Seq::empty() + tr =~= tr);
    }
}

/// Read the closing part of a record: the trail field, the closing brace,
/// and the end of the text.
pub open spec fn read_record_trail(
    version: nat,
    current: Seq<char>,
    depth: nat,
    s: Seq<char>,
) -> Option<SaveDataV> {
    match expect_char(s, ',') {
        None => None,
        Some(s1) => match expect_token(s1, "\"trail\""@) {
            None => None,
            Some(s2) => match expect_char(s2, ':') {
                None => None,
                Some(s3) => match expect_char(s3, '[') {
                    None => None,
                    Some(s4) => match read_trail(s4, s4.len()) {
                        None => None,
                        Some((trail, s5)) => match expect_char(s5, '}') {
                            None => None,
                            Some(s6) => {
                                if skip_ws(s6).len() == 0 {
                                    Some(
                                        SaveDataV {
                                            version: version as int,
                                            current,
                                            depth: depth as int,
                                            trail,
                                        },
                                    )
                                } else {
                                    None
                                }
                            },
                        },
                    },
                },
            },
        },
    }
}

/// Read the depth field and the rest of the record. A depth beyond the
/// machine's word is no record.
pub open spec fn read_record_depth(version: nat, current: Seq<char>, s: Seq<char>) -> Option<
    SaveDataV,
> {
    match expect_char(s, ',') {
        None => None,
        Some(s1) => match expect_token(s1, "\"depth\""@) {
            None => None,
            Some(s2) => match expect_char(s2, ':') {
                None => None,
                Some(s3) => match read_number(s3) {
                    None => None,
                    Some((depth, s4)) => {
                        if depth > usize::MAX as nat {
                            None
                        } else {
                            read_record_trail(version, current, depth, s4)
                        }
                    },
                },
            },
        },
    }
}

/// Read the current-identifier field and the rest of the record.
pub open spec fn read_record_current(version: nat, s: Seq<char>) -> Option<SaveDataV> {
    match expect_char(s, ',') {
        None => None,
        Some(s1) => match expect_token(s1, "\"current\""@) {
            None => None,
            Some(s2) => match expect_char(s2, ':') {
                None => None,
                Some(s3) => match read_quoted(skip_ws(s3)) {
                    None => None,
                    Some((current, s4)) => read_record_depth(version, current, s4),
                },
            },
        },
    }
}

/// Read a save record from its JSON text: an object holding the four fields
/// in the order they are written — version, current, depth, trail — with
/// JSON whitespace allowed between tokens, to the end of the text. A version
/// beyond the field's width is no record.
pub open spec fn read_record(s: Seq<char>) -> Option<SaveDataV> {
    match expect_char(s, '{') {
        None => None,
        Some(s1) => match expect_token(s1, "\"version\""@) {
            None => None,
            Some(s2) => match expect_char(s2, ':') {
                None => None,
                Some(s3) => match read_number(s3) {
                    None => None,
                    Some((version, s4)) => {
                        if version > u8::MAX as nat {
                            None
                        } else {
                            read_record_current(version, s4)
                        }
                    },
                },
            },
        },
    }
}

/// A rendered trail is at least as long as its item count.
proof fn lemma_trail_items_len(tr: Seq<Seq<char>>)
    ensures
        trail_items(tr).len() >= tr.len(),
    decreases tr.len(),
{
    if tr.len() == 0 {
    } else if tr.len() == 1 {
        assert(quoted(tr[0]).len() >= 2);
    } else {
        lemma_trail_items_len(tr.drop_last());
        assert(quoted(tr.last()).len() >= 2);
    }
}

/// The save text is faithful: reading the text a record was encoded to
/// yields exactly that record, so no two distinct records share an encoding
/// and nothing a record holds is lost in its text. Versions and depths are
/// within their fields\' widths, as in every record the executable types can
/// build.
#[verifier::rlimit(100)]
pub proof fn lemma_record_text_faithful(rec: SaveDataV)
    requires
        0 <= rec.version <= u8::MAX,
        0 <= rec.depth <= usize::MAX,
    ensures
        read_record(json_of_record(rec)) == Some(rec),
{
    reveal_strlit("{\"version\":");
    reveal_strlit(",\"current\":");
    reveal_strlit(",\"depth\":");
    reveal_strlit(",\"trail\":[");
    reveal_strlit("]}");
    reveal_strlit("\"version\"");
    reveal_strlit("\"current\"");
    reveal_strlit("\"depth\"");
    reveal_strlit("\"trail\"");
    let kv = "\"version\""@;
    let kc = "\"current\""@;
    let kd = "\"depth\""@;
    let kt = "\"trail\""@;
    let version = rec.version as nat;
    let depth = rec.depth as nat;
    let s = json_of_record(rec);
    let trailpart = trail_items(rec.trail) + seq![']'] + seq!['}'];
    let r4 = seq![','] + kt + seq![':'] + seq!['['] + trailpart;
    let r3 = seq![','] + kd + seq![':'] + dec_rep(depth) + r4;
    let r2 = seq![','] + kc + seq![':'] + quoted(rec.current) + r3;
    let r1 = kv + seq![':'] + dec_rep(version) + r2;
    lemma_dec_rep_first_digit(version);
    lemma_dec_rep_first_digit(depth);
    assert(s =~= seq!['{'] + r1);

    lemma_skip_ws_id(s);
    assert(expect_char(s, '{') == Some(s.skip(1)));
    assert(s.skip(1) =~= r1);

    lemma_skip_ws_id(r1);
    assert(r1.take(kv.len() as int) =~= kv);
    let r1b = seq![':'] + dec_rep(version) + r2;
    assert(expect_token(r1, kv) == Some(r1.skip(kv.len() as int)));
    assert(r1.skip(kv.len() as int) =~= r1b);

    lemma_skip_ws_id(r1b);
    assert(expect_char(r1b, ':') == Some(r1b.skip(1)));
    let r1c = dec_rep(version) + r2;
    assert(r1b.skip(1) =~= r1c);

    assert(r1c[0] == dec_rep(version)[0]);
    lemma_skip_ws_id(r1c);
    lemma_read_dec_rep(version, r2, 0);
    assert(r2[0] == ',');
    assert(digit_val(',') is None);
    assert(read_nat(r1c, 0) == (version, r2));
    assert(read_number(r1c) == Some((version, r2)));

    lemma_skip_ws_id(r2);
    assert(expect_char(r2, ',') == Some(r2.skip(1)));
    let r2b = kc + seq![':'] + quoted(rec.current) + r3;
    assert(r2.skip(1) =~= r2b);
    lemma_skip_ws_id(r2b);
    assert(r2b.take(kc.len() as int) =~= kc);
    let r2c = seq![':'] + quoted(rec.current) + r3;
    assert(expect_token(r2b, kc) == Some(r2b.skip(kc.len() as int)));
    assert(r2b.skip(kc.len() as int) =~= r2c);
    lemma_skip_ws_id(r2c);
    assert(expect_char(r2c, ':') == Some(r2c.skip(1)));
    let r2d = quoted(rec.current) + r3;
    assert(r2c.skip(1) =~= r2d);
    assert(r2d[0] == '"');
    lemma_skip_ws_id(r2d);
    lemma_read_quoted(rec.current, r3);

    lemma_skip_ws_id(r3);
    assert(expect_char(r3, ',') == Some(r3.skip(1)));
    let r3b = kd + seq![':'] + dec_rep(depth) + r4;
    assert(r3.skip(1) =~= r3b);
    lemma_skip_ws_id(r3b);
    assert(r3b.take(kd.len() as int) =~= kd);
    let r3c = seq![':'] + dec_rep(depth) + r4;
    assert(expect_token(r3b, kd) == Some(r3b.skip(kd.len() as int)));
    assert(r3b.skip(kd.len() as int) =~= r3c);
    lemma_skip_ws_id(r3c);
    assert(expect_char(r3c, ':') == Some(r3c.skip(1)));
    let r3d = dec_rep(depth) + r4;
    assert(r3c.skip(1) =~= r3d);
    assert(r3d[0] == dec_rep(depth)[0]);
    lemma_skip_ws_id(r3d);
    lemma_read_dec_rep(depth, r4, 0);
    assert(r4[0] == ',');
    assert(read_nat(r3d, 0) == (depth, r4));
    assert(read_number(r3d) == Some((depth, r4)));

    lemma_skip_ws_id(r4);
    assert(expect_char(r4, ',') == Some(r4.skip(1)));
    let r4b = kt + seq![':'] + seq!['['] + trailpart;
    assert(r4.skip(1) =~= r4b);
    lemma_skip_ws_id(r4b);
    assert(r4b.take(kt.len() as int) =~= kt);
    let r4c = seq![':'] + seq!['['] + trailpart;
    assert(expect_token(r4b, kt) == Some(r4b.skip(kt.len() as int)));
    assert(r4b.skip(kt.len() as int) =~= r4c);
    lemma_skip_ws_id(r4c);
    assert(expect_char(r4c, ':') == Some(r4c.skip(1)));
    let r4d = seq!['['] + trailpart;
    assert(r4c.skip(1) =~= r4d);
    lemma_skip_ws_id(r4d);
    assert(expect_char(r4d, '[') == Some(r4d.skip(1)));
    assert(r4d.skip(1) =~= trailpart);

    lemma_trail_items_len(rec.trail);
    lemma_read_trail(rec.trail, seq!['}'], trailpart.len() as nat);
    assert(read_trail(trailpart, trailpart.len()) == Some::<(Seq<Seq<char>>, Seq<char>)>(
        (rec.trail, seq!['}']),
    ));

    let r5 = seq!['}'];
    lemma_skip_ws_id(r5);
    assert(expect_char(r5, '}') == Some(r5.skip(1)));
    assert(skip_ws(r5.skip(1)).len() == 0);
}

/// The whole persistence round trip: the text a state is saved as reads back
/// to the record it was written from, and that record restores exactly the
/// saved state — for every state whose depth agrees with its identifier, as
/// it does in every state the engine builds.
pub proof fn lemma_persistence_round_trip(st: StateV)
    requires
        st.depth == depth_of(st.id),
        st.depth <= usize::MAX,
    ensures
        read_record(json_of_record(record_of(st))) == Some(record_of(st)),
        state_of(record_of(st)) == Some(st),
{
    lemma_record_text_faithful(record_of(st));
    lemma_save_round_trip(st);
}

/// Move the reading position past leading whitespace.
pub(crate) fn ws_end(s: &Vec<char>, i: usize) -> (r: usize)
    requires
        i <= s.len(),
    ensures
        i <= r <= s@.len(),
        skip_ws(s@.skip(i as int)) == s@.skip(r as int),
{
    let mut j = i;
    while j < s.len() && (s[j] == ' ' || s[j] == '\t' || s[j] == '\n' || s[j] == '\r')
        invariant
            i <= j <= s@.len(),
            skip_ws(s@.skip(i as int)) == skip_ws(s@.skip(j as int)),
        decreases s@.len() - j,
    {
        proof {
            assert(s@.skip(j as int)[0] == s@[j as int]);
            assert(s@.skip(j as int).skip(1) =~= s@.skip(j as int + 1));
        }
        j += 1;
    }
    proof {
        if j < s.len() {
            assert(s@.skip(j as int)[0] == s@[j as int]);
        }
        lemma_skip_ws_id(s@.skip(j as int));
    }
    j
}

/// Match one expected character, whitespace before it allowed.
pub(crate) fn expect_char_exec(s: &Vec<char>, i: usize, c: char) -> (r: Option<usize>)
    requires
        i <= s.len(),
    ensures
        match r {
            Some(j) => i < j <= s@.len() && expect_char(s@.skip(i as int), c) == Some(
                s@.skip(j as int),
            ),
            None => expect_char(s@.skip(i as int), c) is None,
        },
{
    let j = ws_end(s, i);
    if j < s.len() && s[j] == c {
        proof {
            assert(s@.skip(j as int)[0] == s@[j as int]);
            assert(s@.skip(j as int).skip(1) =~= s@.skip(j as int + 1));
        }
        Some(j + 1)
    } else {
        proof {
            if j < s.len() {
                assert(s@.skip(j as int)[0] == s@[j as int]);
            }
        }
        None
    }
}

/// Match an expected verbatim token, whitespace before it allowed.
pub(crate) fn expect_token_exec(s: &Vec<char>, i: usize, token: &str) -> (r: Option<usize>)
    requires
        i <= s.len(),
    ensures
        match r {
            Some(j) => i <= j <= s@.len() && expect_token(s@.skip(i as int), token@) == Some(
                s@.skip(j as int),
            ),
            None => expect_token(s@.skip(i as int), token@) is None,
        },
{
    let j = ws_end(s, i);
    let n = token.unicode_len();
    if n > s.len() - j {
        return None;
    }
    let mut k: usize = 0;
    while k < n
        invariant
            k <= n,
            n == token@.len(),
            i <= j,
            j + n <= s@.len(),
            s@.len() <= usize::MAX,
            skip_ws(s@.skip(i as int)) == s@.skip(j as int),
            forall|m: int| 0 <= m < k ==> s@[j + m] == token@[m],
        decreases n - k,
    {
        if s[j + k] != token.get_char(k) {
            proof {
                let t = s@.skip(j as int);
                if text_starts_with(t, token@) {
                    assert(t.take(n as int)[k as int] == token@[k as int]);
                    assert(t[k as int] == s@[j as int + k as int]);
                    assert(false);
                }
            }
            return None;
        }
        k += 1;
    }
    proof {
        let t = s@.skip(j as int);
        assert(t.take(n as int) =~= token@);
        assert(t.skip(n as int) =~= s@.skip(j as int + n as int));
    }
    Some(j + n)
}

/// The numeric value of a decimal digit character.
pub(crate) fn digit_val_exec(c: char) -> (r: Option<usize>)
    ensures
        match r {
            Some(d) => digit_val(c) == Some(d as nat) && d < 10,
            None => digit_val(c) is None,
        },
{
    if c == '0' {
        Some(0)
    } else if c == '1' {
        Some(1)
    } else if c == '2' {
        Some(2)
    } else if c == '3' {
        Some(3)
    } else if c == '4' {
        Some(4)
    } else if c == '5' {
        Some(5)
    } else if c == '6' {
        Some(6)
    } else if c == '7' {
        Some(7)
    } else if c == '8' {
        Some(8)
    } else if c == '9' {
        Some(9)
    } else {
        None
    }
}

/// The numeric value of a hexadecimal digit character of either case.
pub(crate) fn hex_val_exec(c: char) -> (r: Option<u32>)
    ensures
        match r {
            Some(d) => hex_val(c) == Some(d as nat) && d < 16,
            None => hex_val(c) is None,
        },
{
    if c == 'a' || c == 'A' {
        Some(10)
    } else if c == 'b' || c == 'B' {
        Some(11)
    } else if c == 'c' || c == 'C' {
        Some(12)
    } else if c == 'd' || c == 'D' {
        Some(13)
    } else if c == 'e' || c == 'E' {
        Some(14)
    } else if c == 'f' || c == 'F' {
        Some(15)
    } else {
        match digit_val_exec(c) {
            Some(d) => Some(d as u32),
            None => None,
        }
    }
}

/// Read a decimal number, whitespace before it allowed: the position after
/// its digits, and its value when that fits the machine word.
pub(crate) fn read_number_exec(s: &Vec<char>, i: usize) -> (r: Option<(Option<usize>, usize)>)
    requires
        i <= s.len(),
    ensures
        match r {
            Some((v, j)) => {
                &&& i <= j <= s@.len()
                &&& read_number(s@.skip(i as int)) matches Some((n, rest)) && rest == s@.skip(
                    j as int,
                ) && (match v {
                    Some(x) => n == x as nat,
                    None => n > usize::MAX,
                })
            },
            None => read_number(s@.skip(i as int)) is None,
        },
{
    let start = ws_end(s, i);
    if start == s.len() {
        return None;
    }
    proof {
        assert(s@.skip(start as int)[0] == s@[start as int]);
    }
    if digit_val_exec(s[start]).is_none() {
        return None;
    }
    let ghost t0 = s@.skip(start as int);
    let mut j = start;
    let mut acc: usize = 0;
    let mut over = false;
    let ghost mut sacc: nat = 0nat;
    loop
        invariant
            start <= j <= s@.len(),
            i <= start <= s@.len(),
            t0 == s@.skip(start as int),
            skip_ws(s@.skip(i as int)) == t0,
            read_nat(t0, 0) == read_nat(s@.skip(j as int), sacc),
            if over {
                sacc > usize::MAX
            } else {
                acc as nat == sacc
            },
        ensures
            start <= j <= s@.len(),
            skip_ws(s@.skip(i as int)) == t0,
            read_nat(t0, 0) == read_nat(s@.skip(j as int), sacc),
            if over {
                sacc > usize::MAX
            } else {
                acc as nat == sacc
            },
            j == s@.len() || digit_val(s@[j as int]) is None,
        decreases s@.len() - j,
    {
        if j == s.len() {
            break ;
        }
        proof {
            assert(s@.skip(j as int)[0] == s@[j as int]);
        }
        let d = match digit_val_exec(s[j]) {
            Some(d) => d,
            None => {
                break ;
            },
        };
        proof {
            assert(s@.skip(j as int).skip(1) =~= s@.skip(j as int + 1));
        }
        if !over {
            let limit = (usize::MAX - d) / 10;
            if acc <= limit {
                proof {
                    lemma_fundamental_div_mod((usize::MAX - d) as int, 10);
                    assert(acc * 10 <= limit * 10) by (nonlinear_arith)
                        requires
                            acc <= limit,
                    ;
                    assert(limit * 10 <= usize::MAX - d);
                }
                acc = acc * 10 + d;
            } else {
                proof {
                    lemma_fundamental_div_mod((usize::MAX - d) as int, 10);
                    assert(acc * 10 >= (limit + 1) * 10) by (nonlinear_arith)
                        requires
                            acc >= limit + 1,
                    ;
                    assert((limit + 1) * 10 > usize::MAX - d);
                    assert(sacc * 10 + d > usize::MAX);
                }
                over = true;
            }
        } else {
            proof {
                assert(sacc * 10 + d >= sacc) by (nonlinear_arith);
            }
        }
        proof {
            sacc = sacc * 10 + (d as nat);
        }
        j += 1;
    }
    proof {
        if j < s.len() {
            assert(s@.skip(j as int)[0] == s@[j as int]);
        }
        assert(read_nat(s@.skip(j as int), sacc) == (sacc, s@.skip(j as int)));
    }
    if over {
        Some((None, j))
    } else {
        Some((Some(acc), j))
    }
}

/// Read a whole JSON string literal starting exactly at its opening quote.
pub(crate) fn read_quoted_exec(s: &Vec<char>, i: usize) -> (r: Option<(String, usize)>)
    requires
        i <= s.len(),
    ensures
        match r {
            Some((t, j)) => i < j <= s@.len() && read_quoted(s@.skip(i as int)) == Some(
                (t@, s@.skip(j as int)),
            ),
            None => read_quoted(s@.skip(i as int)) is None,
        },
{
    if i == s.len() {
        return None;
    }
    proof {
        assert(s@.skip(i as int)[0] == s@[i as int]);
    }
    if s[i] != '"' {
        return None;
    }
    proof {
        assert(s@.skip(i as int).skip(1) =~= s@.skip(i as int + 1));
    }
    let ghost t0 = s@.skip(i as int + 1);
    let mut j = i + 1;
    let mut acc: Vec<char> = Vec::new();
    loop
        invariant
            i + 1 <= j <= s@.len(),
            t0 == s@.skip(i as int + 1),
            read_quoted(s@.skip(i as int)) == read_jstring(t0, Seq::empty()),
            read_jstring(t0, Seq::empty()) == read_jstring(s@.skip(j as int), acc@),
        decreases s@.len() - j,
    {
        if j == s.len() {
            return None;
        }
        let c = s[j];
        let ghost acc0 = acc@;
        proof {
            assert(s@.skip(j as int)[0] == s@[j as int]);
        }
        if c == '"' {
            proof {
                assert(s@.skip(j as int).skip(1) =~= s@.skip(j as int + 1));
            }
            return Some((chars_to_string(&acc), j + 1));
        }
        if c == '\\' {
            if j + 1 == s.len() {
                return None;
            }
            let e = s[j + 1];
            proof {
                assert(s@.skip(j as int)[1] == s@[j as int + 1]);
                assert(s@.skip(j as int).skip(2) =~= s@.skip(j as int + 2));
            }
            if e == '"' || e == '\\' || e == '/' {
                acc.push(e);
                proof {
                    assert(acc@ =~= acc0 + seq![e]);
                }
                j += 2;
            } else if e == 'b' {
                acc.push('\u{0008}');
                proof {
                    assert(acc@ =~= acc0 + seq!['\u{0008}']);
                }
                j += 2;
            } else if e == 'f' {
                acc.push('\u{000C}');
                proof {
                    assert(acc@ =~= acc0 + seq!['\u{000C}']);
                }
                j += 2;
            } else if e == 'n' {
                acc.push('\n');
                proof {
                    assert(acc@ =~= acc0 + seq!['\n']);
                }
                j += 2;
            } else if e == 'r' {
                acc.push('\r');
                proof {
                    assert(acc@ =~= acc0 + seq!['\r']);
                }
                j += 2;
            } else if e == 't' {
                acc.push('\t');
                proof {
                    assert(acc@ =~= acc0 + seq!['\t']);
                }
                j += 2;
            } else if e == 'u' {
                if s.len() - j < 6 {
                    return None;
                }
                proof {
                    assert(s@.skip(j as int)[2] == s@[j as int + 2]);
                    assert(s@.skip(j as int)[3] == s@[j as int + 3]);
                    assert(s@.skip(j as int)[4] == s@[j as int + 4]);
                    assert(s@.skip(j as int)[5] == s@[j as int + 5]);
                    assert(s@.skip(j as int).skip(6) =~= s@.skip(j as int + 6));
                }
                let h1 = match hex_val_exec(s[j + 2]) {
                    Some(h) => h,
                    None => {
                        return None;
                    },
                };
                let h2 = match hex_val_exec(s[j + 3]) {
                    Some(h) => h,
                    None => {
                        return None;
                    },
                };
                let h3 = match hex_val_exec(s[j + 4]) {
                    Some(h) => h,
                    None => {
                        return None;
                    },
                };
                let h4 = match hex_val_exec(s[j + 5]) {
                    Some(h) => h,
                    None => {
                        return None;
                    },
                };
                let v: u32 = 4096 * h1 + 256 * h2 + 16 * h3 + h4;
                if 0xD800 <= v && v < 0xE000 {
                    return None;
                }
                let c2 = char_from_u32(v).unwrap();
                proof {
                    vstd::utf8::char_u32_cast(c2, v);
                }
                acc.push(c2);
                proof {
                    assert(acc@ =~= acc0 + seq![c2]);
                }
                j += 6;
            } else {
                return None;
            }
        } else {
            proof {
                assert(s@.skip(j as int).skip(1) =~= s@.skip(j as int + 1));
            }
            acc.push(c);
            proof {
                assert(acc@ =~= acc0 + seq![c]);
            }
            j += 1;
        }
    }
}

/// Read the trail array after its opening bracket.
fn read_trail_exec(s: &Vec<char>, i: usize) -> (r: Option<(Vec<String>, usize)>)
    requires
        i <= s.len(),
    ensures
        match r {
            Some((items, j)) => i <= j <= s@.len() && read_trail(
                s@.skip(i as int),
                s@.skip(i as int).len(),
            ) == Some((items.deep_view(), s@.skip(j as int))),
            None => read_trail(s@.skip(i as int), s@.skip(i as int).len()) is None,
        },
{
    let ghost fuel0: nat = s@.skip(i as int).len();
    let k = ws_end(s, i);
    if k < s.len() && s[k] == ']' {
        proof {
            assert(s@.skip(k as int)[0] == s@[k as int]);
            assert(s@.skip(k as int).skip(1) =~= s@.skip(k as int + 1));
        }
        let empty: Vec<String> = Vec::new();
        proof {
            assert(empty.deep_view() =~= Seq::<Seq<char>>::empty());
        }
        return Some((empty, k + 1));
    }
    proof {
        if k < s.len() {
            assert(s@.skip(k as int)[0] == s@[k as int]);
        }
    }
    let mut items: Vec<String> = Vec::new();
    let mut j = i;
    let ghost mut fuel: nat = fuel0;
    proof {
        assert(items.deep_view() =~= Seq::<Seq<char>>::empty());
    }
    loop
        invariant
            i <= j <= s@.len(),
            fuel0 == s@.skip(i as int).len(),
            fuel >= s@.len() - j,
            read_items(s@.skip(i as int), Seq::empty(), fuel0) == read_items(
                s@.skip(j as int),
                items.deep_view(),
                fuel,
            ),
            read_trail(s@.skip(i as int), fuel0) == read_items(s@.skip(i as int), Seq::empty(), fuel0),
        decreases s@.len() - j,
    {
        let k2 = ws_end(s, j);
        let (item, jq) = match read_quoted_exec(s, k2) {
            Some(p) => p,
            None => {
                return None;
            },
        };
        let m = ws_end(s, jq);
        if m < s.len() && s[m] == ',' {
            proof {
                assert(s@.skip(m as int)[0] == s@[m as int]);
                assert(s@.skip(m as int).skip(1) =~= s@.skip(m as int + 1));
                assert(fuel >= 1);
            }
            let ghost old_items = items.deep_view();
            items.push(item);
            proof {
                assert(items.deep_view() =~= old_items.push(item@));
                fuel = (fuel - 1) as nat;
            }
            j = m + 1;
        } else if m < s.len() && s[m] == ']' {
            proof {
                assert(s@.skip(m as int)[0] == s@[m as int]);
                assert(s@.skip(m as int).skip(1) =~= s@.skip(m as int + 1));
            }
            let ghost old_items = items.deep_view();
            items.push(item);
            proof {
                assert(items.deep_view() =~= old_items.push(item@));
            }
            return Some((items, m + 1));
        } else {
            proof {
                if m < s.len() {
                    assert(s@.skip(m as int)[0] == s@[m as int]);
                }
            }
            return None;
        }
    }
}

/// Read a persisted record from its JSON text and restore the state it
/// holds: an error exactly when the text does not read as a save record,
/// nothing when the record it reads as bears a foreign schema version, and
/// the recorded state — its depth derived from its identifier — otherwise.
#[verifier::rlimit(100)]
pub fn decode_save(text: &str) -> (r: Result<Option<Current>, SaveLoadError>)
    ensures
        match read_record(text@) {
            None => r == Err::<Option<Current>, SaveLoadError>(SaveLoadError::Malformed),
            Some(rec) => {
                if rec.version != SCHEMA_VERSION as int {
                    r == Ok::<Option<Current>, SaveLoadError>(None)
                } else {
                    r matches Ok(c) && c matches Some(st) && state_of(rec) == Some(st@)
                }
            },
        },
{
    let s = str_to_chars(text);
    proof {
        assert(s@.skip(0) =~= text@);
    }
    let p1 = match expect_char_exec(&s, 0, '{') {
        Some(p) => p,
        None => {
            return Err(SaveLoadError::Malformed);
        },
    };
    let p2 = match expect_token_exec(&s, p1, "\"version\"") {
        Some(p) => p,
        None => {
            return Err(SaveLoadError::Malformed);
        },
    };
    let p3 = match expect_char_exec(&s, p2, ':') {
        Some(p) => p,
        None => {
            return Err(SaveLoadError::Malformed);
        },
    };
    let (vopt, p4) = match read_number_exec(&s, p3) {
        Some(x) => x,
        None => {
            return Err(SaveLoadError::Malformed);
        },
    };
    let version = match vopt {
        Some(v) => v,
        None => {
            return Err(SaveLoadError::Malformed);
        },
    };
    if version > u8::MAX as usize {
        return Err(SaveLoadError::Malformed);
    }
    let p5 = match expect_char_exec(&s, p4, ',') {
        Some(p) => p,
        None => {
            return Err(SaveLoadError::Malformed);
        },
    };
    let p6 = match expect_token_exec(&s, p5, "\"current\"") {
        Some(p) => p,
        None => {
            return Err(SaveLoadError::Malformed);
        },
    };
    let p7 = match expect_char_exec(&s, p6, ':') {
        Some(p) => p,
        None => {
            return Err(SaveLoadError::Malformed);
        },
    };
    let k = ws_end(&s, p7);
    let (current, p8) = match read_quoted_exec(&s, k) {
        Some(x) => x,
        None => {
            return Err(SaveLoadError::Malformed);
        },
    };
    let p9 = match expect_char_exec(&s, p8, ',') {
        Some(p) => p,
        None => {
            return Err(SaveLoadError::Malformed);
        },
    };
    let p10 = match expect_token_exec(&s, p9, "\"depth\"") {
        Some(p) => p,
        None => {
            return Err(SaveLoadError::Malformed);
        },
    };
    let p11 = match expect_char_exec(&s, p10, ':') {
        Some(p) => p,
        None => {
            return Err(SaveLoadError::Malformed);
        },
    };
    let (dopt, p12) = match read_number_exec(&s, p11) {
        Some(x) => x,
        None => {
            return Err(SaveLoadError::Malformed);
        },
    };
    let depth = match dopt {
        Some(d) => d,
        None => {
            return Err(SaveLoadError::Malformed);
        },
    };
    let p13 = match expect_char_exec(&s, p12, ',') {
        Some(p) => p,
        None => {
            return Err(SaveLoadError::Malformed);
        },
    };
    let p14 = match expect_token_exec(&s, p13, "\"trail\"") {
        Some(p) => p,
        None => {
            return Err(SaveLoadError::Malformed);
        },
    };
    let p15 = match expect_char_exec(&s, p14, ':') {
        Some(p) => p,
        None => {
            return Err(SaveLoadError::Malformed);
        },
    };
    let p16 = match expect_char_exec(&s, p15, '[') {
        Some(p) => p,
        None => {
            return Err(SaveLoadError::Malformed);
        },
    };
    let (trail, p17) = match read_trail_exec(&s, p16) {
        Some(x) => x,
        None => {
            return Err(SaveLoadError::Malformed);
        },
    };
    let p18 = match expect_char_exec(&s, p17, '}') {
        Some(p) => p,
        None => {
            return Err(SaveLoadError::Malformed);
        },
    };
    let p19 = ws_end(&s, p18);
    if p19 != s.len() {
        return Err(SaveLoadError::Malformed);
    }
    let rec = SaveData { version: version as u8, current, depth, trail };
    Ok(rec.to_state())
}

/// What a save request writes: nothing in disabled mode, where the request
/// still succeeds as a no-op, else exactly the record text of the state.
pub fn save_text(disabled: bool, current: &Current) -> (r: Option<String>)
    ensures
        r is None <==> disabled,
        r matches Some(text) ==> text@ == json_of_record(record_of(current@)),
{
    if disabled {
        None
    } else {
        Some(encode_save(&SaveData::from_state(current)))
    }
}

/// What a load reports, given the mode and what the durable location held:
/// no state in disabled mode and with no record present, never an error;
/// otherwise the present record text decides, exactly as `decode_save`
/// reads it.
pub fn interpret_loaded_text(disabled: bool, raw: Option<&str>) -> (r: Result<
    Option<Current>,
    SaveLoadError,
>)
    ensures
        disabled ==> (r matches Ok(c) && c is None),
        raw is None ==> (r matches Ok(c) && c is None),
        match raw {
            Some(text) => !disabled ==> (match read_record(text@) {
                None => r == Err::<Option<Current>, SaveLoadError>(SaveLoadError::Malformed),
                Some(rec) => {
                    if rec.version != SCHEMA_VERSION as int {
                        r == Ok::<Option<Current>, SaveLoadError>(None)
                    } else {
                        r matches Ok(c) && c matches Some(st) && state_of(rec) == Some(st@)
                    }
                },
            }),
            None => true,
        },
{
    if disabled {
        return Ok(None);
    }
    match raw {
        None => Ok(None),
        Some(text) => decode_save(text),
    }
}

/// Whether a save is reported present: never in disabled mode, else exactly
/// when a durable record exists.
pub fn reports_save(disabled: bool, record_exists: bool) -> (r: bool)
    ensures
        r == (!disabled && record_exists),
{
    !disabled && record_exists
}

/// The auto-save gate: persist only when the state changed during active
/// play and is past the fresh root state, so "continue" is never offered
/// before a first choice was made.
pub fn wants_auto_save(changed: bool, current: &Current) -> (r: bool)
    ensures
        r == (changed && current@.depth > 0),
{
    changed && current.depth > 0
}

} // verus!
