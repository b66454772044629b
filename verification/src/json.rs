//! The metadata file format: JSON emission of a record and the parse that
//! recovers its trait list, so that the compositing phase can read back
//! exactly what the metadata phase wrote.
//!
//! Strings are escaped as JSON demands: quote, backslash, and the common
//! control characters by their two-character escapes, any other control
//! character as `\u00XX`.  The parser accepts exactly what the emitter
//! produces, and the round trip is proved: parsing an emitted record
//! yields the record's trait pairs unchanged.

use vstd::prelude::*;

use crate::attributes::Trait;
use crate::attributes::trait_views;
use crate::metadata::NFTMetadata;
use crate::metadata::PropertyFile;
use crate::metadata::creators_views;
use crate::config::Creator;
use crate::text::dec_str;
use crate::text::u32_to_string;

verus! {

/// Relies on std's `String::push`: appends one character at the end.
pub assume_specification[ String::push ](s: &mut String, ch: char)
    ensures
        final(s)@ == old(s)@.push(ch),
;

/// The lower-case hex digit of `n`.
pub open spec fn hex_char(n: nat) -> char {
    if n == 0 {
        '0'
    } else if n == 1 {
        '1'
    } else if n == 2 {
        '2'
    } else if n == 3 {
        '3'
    } else if n == 4 {
        '4'
    } else if n == 5 {
        '5'
    } else if n == 6 {
        '6'
    } else if n == 7 {
        '7'
    } else if n == 8 {
        '8'
    } else if n == 9 {
        '9'
    } else if n == 10 {
        'a'
    } else if n == 11 {
        'b'
    } else if n == 12 {
        'c'
    } else if n == 13 {
        'd'
    } else if n == 14 {
        'e'
    } else {
        'f'
    }
}

/// The value of a hex digit, or `-1`.
pub open spec fn hex_val(c: char) -> int {
    let v = c as u32;
    if 48 <= v <= 57 {
        v - 48
    } else if 97 <= v <= 102 {
        v - 87
    } else {
        -1
    }
}

/// A control character, which JSON cannot hold raw inside a string.
pub open spec fn is_control(c: char) -> bool {
    (c as u32) < 32
}

/// How one character is written inside a JSON string.
pub open spec fn esc_char(c: char) -> Seq<char> {
    if c == '"' {
        seq!['\\', '"']
    } else if c == '\\' {
        seq!['\\', '\\']
    } else if c == '\n' {
        seq!['\\', 'n']
    } else if c == '\r' {
        seq!['\\', 'r']
    } else if c == '\t' {
        seq!['\\', 't']
    } else if is_control(c) {
        seq!['\\', 'u', '0', '0', hex_char((c as u32 / 16) as nat), hex_char((c as u32 % 16) as nat)]
    } else {
        seq![c]
    }
}

/// The escaped body of a JSON string.
pub open spec fn esc(s: Seq<char>) -> Seq<char>
    decreases s.len(),
{
    if s.len() == 0 {
        Seq::empty()
    } else {
        esc_char(s[0]) + esc(s.skip(1))
    }
}

/// A whole JSON string token: the escaped body in quotes.
pub open spec fn jstr(s: Seq<char>) -> Seq<char> {
    seq!['"'] + esc(s) + seq!['"']
}

/// The character a two-character escape stands for.
pub open spec fn unescape_char(e: char) -> Option<char> {
    if e == '"' {
        Some('"')
    } else if e == '\\' {
        Some('\\')
    } else if e == '/' {
        Some('/')
    } else if e == 'n' {
        Some('\n')
    } else if e == 'r' {
        Some('\r')
    } else if e == 't' {
        Some('\t')
    } else {
        None
    }
}

/// Parses the body of a JSON string, the opening quote already consumed:
/// the decoded characters and what follows the closing quote.
pub open spec fn parse_jstring_body(s: Seq<char>) -> Option<(Seq<char>, Seq<char>)>
    decreases s.len(),
{
    if s.len() == 0 {
        None
    } else if s[0] == '"' {
        Some((Seq::empty(), s.skip(1)))
    } else if s[0] == '\\' {
        if s.len() < 2 {
            None
        } else if s[1] == 'u' {
            if s.len() < 6 {
                None
            } else if !(s[2] == '0' && s[3] == '0' && hex_val(s[4]) >= 0 && hex_val(s[5]) >= 0) {
                None
            } else {
                let c = (hex_val(s[4]) * 16 + hex_val(s[5])) as char;
                match parse_jstring_body(s.skip(6)) {
                    None => None,
                    Some((v, rest)) => Some((seq![c] + v, rest)),
                }
            }
        } else {
            match unescape_char(s[1]) {
                None => None,
                Some(c) => match parse_jstring_body(s.skip(2)) {
                    None => None,
                    Some((v, rest)) => Some((seq![c] + v, rest)),
                },
            }
        }
    } else {
        match parse_jstring_body(s.skip(1)) {
            None => None,
            Some((v, rest)) => Some((seq![s[0]] + v, rest)),
        }
    }
}

/// Law: the string round trip.  Whatever characters a name holds, parsing
/// the emitted escape of it recovers those characters exactly, and leaves
/// exactly what followed the token.
pub proof fn lemma_jstring_round_trip(s: Seq<char>, rest: Seq<char>)
    ensures
        parse_jstring_body(esc(s) + seq!['"'] + rest) == Some((s, rest)),
    decreases s.len(),
{
    let input = esc(s) + seq!['"'] + rest;
    if s.len() == 0 {
        assert(input =~= seq!['"'] + rest);
        assert(input[0] == '"');
        assert(input.skip(1) =~= rest);
    } else {
        let c = s[0];
        let tail = s.skip(1);
        lemma_jstring_round_trip(tail, rest);
        let sub = esc(tail) + seq!['"'] + rest;
        assert(input =~= esc_char(c) + sub);
        if c == '"' || c == '\\' || c == '\n' || c == '\r' || c == '\t' {
            assert(input[0] == '\\');
            assert(unescape_char(input[1]) == Some(c));
            assert(input[1] != 'u');
            assert(input.skip(2) =~= sub);
            assert(seq![c] + tail =~= s);
        } else if is_control(c) {
            let v = c as u32;
            assert(input[0] == '\\' && input[1] == 'u' && input[2] == '0' && input[3] == '0');
            assert(input[4] == hex_char((v / 16) as nat));
            assert(input[5] == hex_char((v % 16) as nat));
            lemma_hex_char_val((v / 16) as nat);
            lemma_hex_char_val((v % 16) as nat);
            assert(hex_val(input[4]) * 16 + hex_val(input[5]) == v);
            vstd::utf8::char_u32_cast(c, v);
            assert((v as int) as char == c);
            assert(input.len() >= 6);
            assert(input.skip(6) =~= sub);
            assert(seq![c] + tail =~= s);
        } else {
            assert(input[0] == c);
            assert(input[0] != '"' && input[0] != '\\');
            assert(input.skip(1) =~= sub);
            assert(seq![c] + tail =~= s);
        }
    }
}

proof fn lemma_hex_char_val(n: nat)
    requires
        n < 16,
    ensures
        hex_val(hex_char(n)) == n,
{
}

fn hex_char_of(v: u32) -> (c: char)
    requires
        v < 16,
    ensures
        c == hex_char(v as nat),
{
    if v == 0 {
        '0'
    } else if v == 1 {
        '1'
    } else if v == 2 {
        '2'
    } else if v == 3 {
        '3'
    } else if v == 4 {
        '4'
    } else if v == 5 {
        '5'
    } else if v == 6 {
        '6'
    } else if v == 7 {
        '7'
    } else if v == 8 {
        '8'
    } else if v == 9 {
        '9'
    } else if v == 10 {
        'a'
    } else if v == 11 {
        'b'
    } else if v == 12 {
        'c'
    } else if v == 13 {
        'd'
    } else if v == 14 {
        'e'
    } else {
        'f'
    }
}

proof fn lemma_esc_push(a: Seq<char>, c: char)
    ensures
        esc(a.push(c)) == esc(a) + esc_char(c),
    decreases a.len(),
{
    let ap = a.push(c);
    if a.len() == 0 {
        assert(ap[0] == c);
        assert(ap.skip(1) =~= Seq::<char>::empty());
        assert(esc(ap.skip(1)) == Seq::<char>::empty());
        assert(esc(ap) =~= esc_char(c));
        assert(esc(a) + esc_char(c) =~= esc_char(c));
    } else {
        assert(ap[0] == a[0]);
        assert(ap.skip(1) =~= a.skip(1).push(c));
        lemma_esc_push(a.skip(1), c);
        assert(esc(ap) =~= esc(a) + esc_char(c));
    }
}

/// Appends the escaped body of `s`, as [`esc`] describes.
fn append_escaped(out: &mut String, s: &str)
    ensures
        final(out)@ == old(out)@ + esc(s@),
{
    let n = s.unicode_len();
    let mut i: usize = 0;
    proof {
        assert(s@.take(0) =~= Seq::<char>::empty());
        assert(old(out)@ + esc(s@.take(0)) =~= old(out)@);
    }
    while i < n
        invariant
            i <= n,
            n == s@.len(),
            out@ == old(out)@ + esc(s@.take(i as int)),
        decreases n - i,
    {
        let ghost prefix = s@.take(i as int);
        let c = s.get_char(i);
        if c == '"' {
            out.push('\\');
            out.push('"');
        } else if c == '\\' {
            out.push('\\');
            out.push('\\');
        } else if c == '\n' {
            out.push('\\');
            out.push('n');
        } else if c == '\r' {
            out.push('\\');
            out.push('r');
        } else if c == '\t' {
            out.push('\\');
            out.push('t');
        } else if (c as u32) < 32 {
            let v = c as u32;
            out.push('\\');
            out.push('u');
            out.push('0');
            out.push('0');
            out.push(hex_char_of(v / 16));
            out.push(hex_char_of(v % 16));
        } else {
            out.push(c);
        }
        proof {
            lemma_esc_push(prefix, c);
            assert(s@.take(i + 1) =~= prefix.push(c));
            assert(out@ =~= old(out)@ + esc(s@.take(i + 1)));
        }
        i = i + 1;
    }
    proof {
        assert(s@.take(n as int) =~= s@);
    }
}

/// Appends a whole JSON string token for `s`, as [`jstr`] describes.
pub fn append_json_string(out: &mut String, s: &str)
    ensures
        final(out)@ == old(out)@ + jstr(s@),
{
    out.push('"');
    append_escaped(out, s);
    out.push('"');
    proof {
        assert(out@ =~= old(out)@ + jstr(s@));
    }
}

/// Parses a JSON string token's body starting at `pos`, the opening
/// quote already consumed, as [`parse_jstring_body`] describes; on
/// success the decoded characters and the position after the closing
/// quote.
pub fn parse_json_string_at(s: &str, pos: usize) -> (r: Option<(String, usize)>)
    requires
        pos <= s@.len(),
    ensures
        match r {
            Some(p) => {
                &&& parse_jstring_body(s@.skip(pos as int)) matches Some(q) && p.0@ == q.0
                    && s@.skip(p.1 as int) == q.1
                &&& pos < p.1 <= s@.len()
            },
            None => parse_jstring_body(s@.skip(pos as int)) is None,
        },
{
    let n = s.unicode_len();
    let mut out = String::new();
    let mut i: usize = pos;
    while i < n
        invariant
            pos <= i <= n,
            n == s@.len(),
            match parse_jstring_body(s@.skip(i as int)) {
                Some(q) => parse_jstring_body(s@.skip(pos as int)) matches Some(q0) && q0.0 == out@
                    + q.0 && q0.1 == q.1,
                None => parse_jstring_body(s@.skip(pos as int)) is None,
            },
        decreases n - i,
    {
        let ghost cur = s@.skip(i as int);
        let c = s.get_char(i);
        proof {
            assert(cur[0] == s@[i as int]);
        }
        if c == '"' {
            proof {
                assert(cur.skip(1) =~= s@.skip(i + 1));
                assert(parse_jstring_body(cur) == Some((Seq::<char>::empty(), s@.skip(i + 1))));
                assert(out@ + Seq::<char>::empty() =~= out@);
            }
            return Some((out, i + 1));
        } else if c == '\\' {
            if i + 1 >= n {
                proof {
                    assert(cur.len() < 2);
                }
                return None;
            }
            let e = s.get_char(i + 1);
            proof {
                assert(cur[1] == s@[i + 1]);
            }
            if e == 'u' {
                if n - i < 6 {
                    proof {
                        assert(cur.len() < 6);
                    }
                    return None;
                }
                let h2 = s.get_char(i + 2);
                let h3 = s.get_char(i + 3);
                let h4 = s.get_char(i + 4);
                let h5 = s.get_char(i + 5);
                proof {
                    assert(cur[2] == s@[i + 2] && cur[3] == s@[i + 3] && cur[4] == s@[i + 4]
                        && cur[5] == s@[i + 5]);
                }
                let v4 = hex_val_of(h4);
                let v5 = hex_val_of(h5);
                if !(h2 == '0' && h3 == '0' && v4 >= 0 && v5 >= 0) {
                    return None;
                }
                let code: u32 = (v4 as u32) * 16 + (v5 as u32);
                let decoded: char = (code as u8) as char;
                let ghost old_out = out@;
                out.push(decoded);
                proof {
                    assert(decoded == (hex_val(cur[4]) * 16 + hex_val(cur[5])) as char);
                    assert(cur.skip(6) =~= s@.skip(i + 6));
                    match parse_jstring_body(s@.skip(i + 6)) {
                        Some(q) => {
                            assert(parse_jstring_body(cur) == Some((seq![decoded] + q.0, q.1)));
                            assert(old_out + (seq![decoded] + q.0) =~= out@ + q.0);
                        }
                        None => {
                            assert(parse_jstring_body(cur) is None);
                        }
                    }
                }
                i = i + 6;
            } else {
                let decoded: char;
                if e == '"' {
                    decoded = '"';
                } else if e == '\\' {
                    decoded = '\\';
                } else if e == '/' {
                    decoded = '/';
                } else if e == 'n' {
                    decoded = '\n';
                } else if e == 'r' {
                    decoded = '\r';
                } else if e == 't' {
                    decoded = '\t';
                } else {
                    proof {
                        assert(unescape_char(cur[1]) is None);
                    }
                    return None;
                }
                let ghost old_out = out@;
                out.push(decoded);
                proof {
                    assert(unescape_char(cur[1]) == Some(decoded));
                    assert(cur.skip(2) =~= s@.skip(i + 2));
                    match parse_jstring_body(s@.skip(i + 2)) {
                        Some(q) => {
                            assert(parse_jstring_body(cur) == Some((seq![decoded] + q.0, q.1)));
                            assert(old_out + (seq![decoded] + q.0) =~= out@ + q.0);
                        }
                        None => {
                            assert(parse_jstring_body(cur) is None);
                        }
                    }
                }
                i = i + 2;
            }
        } else {
            let ghost old_out = out@;
            out.push(c);
            proof {
                assert(cur.skip(1) =~= s@.skip(i + 1));
                match parse_jstring_body(s@.skip(i + 1)) {
                    Some(q) => {
                        assert(parse_jstring_body(cur) == Some((seq![c] + q.0, q.1)));
                        assert(old_out + (seq![c] + q.0) =~= out@ + q.0);
                    }
                    None => {
                        assert(parse_jstring_body(cur) is None);
                    }
                }
            }
            i = i + 1;
        }
    }
    proof {
        assert(s@.skip(i as int).len() == 0);
    }
    None
}


/// One trait entry as emitted.
pub open spec fn trait_json(t: (Seq<char>, Seq<char>)) -> Seq<char> {
    "{\"trait_type\":"@ + jstr(t.0) + ",\"value\":"@ + jstr(t.1) + "}"@
}

/// The tail of a trait array after its first entry: each further entry
/// behind a comma, then the closing bracket.
pub open spec fn traits_json_rest(ts: Seq<(Seq<char>, Seq<char>)>) -> Seq<char>
    decreases ts.len(),
{
    if ts.len() == 0 {
        seq![']']
    } else {
        seq![','] + trait_json(ts[0]) + traits_json_rest(ts.skip(1))
    }
}

/// One file entry of the properties block as emitted.
pub open spec fn file_json(f: (Seq<char>, Seq<char>)) -> Seq<char> {
    "{\"uri\":"@ + jstr(f.0) + ",\"type\":"@ + jstr(f.1) + "}"@
}

/// The file list's tail, as [`traits_json_rest`] for traits.
pub open spec fn files_json_rest(fs: Seq<(Seq<char>, Seq<char>)>) -> Seq<char>
    decreases fs.len(),
{
    if fs.len() == 0 {
        seq![']']
    } else {
        seq![','] + file_json(fs[0]) + files_json_rest(fs.skip(1))
    }
}

/// The whole file list.
pub open spec fn files_json(fs: Seq<(Seq<char>, Seq<char>)>) -> Seq<char> {
    if fs.len() == 0 {
        seq!['[', ']']
    } else {
        seq!['['] + file_json(fs[0]) + files_json_rest(fs.skip(1))
    }
}

/// One creator entry as emitted.
pub open spec fn creator_json(c: (Seq<char>, u32)) -> Seq<char> {
    "{\"address\":"@ + jstr(c.0) + ",\"share\":"@ + dec_str(c.1 as nat) + "}"@
}

/// The creator list's tail.
pub open spec fn creators_json_rest(cs: Seq<(Seq<char>, u32)>) -> Seq<char>
    decreases cs.len(),
{
    if cs.len() == 0 {
        seq![']']
    } else {
        seq![','] + creator_json(cs[0]) + creators_json_rest(cs.skip(1))
    }
}

/// The whole creator list.
pub open spec fn creators_json(cs: Seq<(Seq<char>, u32)>) -> Seq<char> {
    if cs.len() == 0 {
        seq!['[', ']']
    } else {
        seq!['['] + creator_json(cs[0]) + creators_json_rest(cs.skip(1))
    }
}

/// The spec form of the file list.
pub open spec fn files_views(fs: Seq<PropertyFile>) -> Seq<(Seq<char>, Seq<char>)> {
    fs.map_values(|f: PropertyFile| (f.uri@, f.file_type@))
}

/// The body of the trait array, the opening bracket already consumed.
pub open spec fn traits_body(ts: Seq<(Seq<char>, Seq<char>)>) -> Seq<char> {
    if ts.len() == 0 {
        seq![']']
    } else {
        trait_json(ts[0]) + traits_json_rest(ts.skip(1))
    }
}

/// A whole metadata record as emitted: one JSON object, every field in
/// fixed order.
pub open spec fn record_json(m: NFTMetadata) -> Seq<char> {
    "{\"name\":"@ + jstr(m.name@) + ",\"symbol\":"@ + jstr(m.symbol@) + ",\"description\":"@
        + jstr(m.description@) + ",\"seller_fee_basis_points\":"@ + dec_str(
        m.seller_fee_basis_points as nat,
    ) + ",\"image\":"@ + jstr(m.image@) + ",\"external_url\":"@ + jstr(m.external_url@)
        + ",\"edition\":"@ + dec_str(m.edition as nat) + ",\"attributes\":["@ + traits_body(
        trait_views(m.attributes@),
    ) + ",\"properties\":{\"files\":"@ + files_json(files_views(m.properties.files@))
        + ",\"category\":"@ + jstr(m.properties.category@) + ",\"creators\":"@ + creators_json(
        creators_views(m.properties.creators@),
    ) + "},\"collection\":{\"name\":"@ + jstr(m.collection.name@) + ",\"family\":"@ + jstr(
        m.collection.family@,
    ) + "}}"@
}

fn append_trait_obj(out: &mut String, t: &Trait)
    ensures
        final(out)@ == old(out)@ + trait_json(t@),
{
    out.append("{\"trait_type\":");
    append_json_string(out, t.trait_type.as_str());
    out.append(",\"value\":");
    append_json_string(out, t.value.as_str());
    out.append("}");
    proof {
        assert(out@ =~= old(out)@ + trait_json(t@));
    }
}

fn append_traits_rest(out: &mut String, ts: &Vec<Trait>, j: usize)
    requires
        1 <= j <= ts@.len(),
    ensures
        final(out)@ == old(out)@ + traits_json_rest(trait_views(ts@).skip(j as int)),
    decreases ts@.len() - j,
{
    if j == ts.len() {
        out.push(']');
        proof {
            assert(trait_views(ts@).skip(j as int).len() == 0);
            assert(out@ =~= old(out)@ + traits_json_rest(trait_views(ts@).skip(j as int)));
        }
    } else {
        out.push(',');
        append_trait_obj(out, &ts[j]);
        append_traits_rest(out, ts, j + 1);
        proof {
            let tv = trait_views(ts@);
            assert(tv.skip(j as int)[0] == tv[j as int]);
            assert(tv.skip(j as int).skip(1) =~= tv.skip(j + 1));
            assert(tv[j as int] == ts@[j as int]@);
            assert(out@ =~= old(out)@ + traits_json_rest(tv.skip(j as int)));
        }
    }
}

fn append_traits_body(out: &mut String, ts: &Vec<Trait>)
    ensures
        final(out)@ == old(out)@ + traits_body(trait_views(ts@)),
{
    if ts.len() == 0 {
        out.push(']');
        proof {
            assert(out@ =~= old(out)@ + traits_body(trait_views(ts@)));
        }
    } else {
        append_trait_obj(out, &ts[0]);
        append_traits_rest(out, ts, 1);
        proof {
            let tv = trait_views(ts@);
            assert(tv[0] == ts@[0]@);
            assert(out@ =~= old(out)@ + traits_body(tv));
        }
    }
}

fn append_file_obj(out: &mut String, f: &PropertyFile)
    ensures
        final(out)@ == old(out)@ + file_json((f.uri@, f.file_type@)),
{
    out.append("{\"uri\":");
    append_json_string(out, f.uri.as_str());
    out.append(",\"type\":");
    append_json_string(out, f.file_type.as_str());
    out.append("}");
    proof {
        assert(out@ =~= old(out)@ + file_json((f.uri@, f.file_type@)));
    }
}

fn append_files_rest(out: &mut String, fs: &Vec<PropertyFile>, j: usize)
    requires
        1 <= j <= fs@.len(),
    ensures
        final(out)@ == old(out)@ + files_json_rest(files_views(fs@).skip(j as int)),
    decreases fs@.len() - j,
{
    if j == fs.len() {
        out.push(']');
        proof {
            assert(files_views(fs@).skip(j as int).len() == 0);
            assert(out@ =~= old(out)@ + files_json_rest(files_views(fs@).skip(j as int)));
        }
    } else {
        out.push(',');
        append_file_obj(out, &fs[j]);
        append_files_rest(out, fs, j + 1);
        proof {
            let fv = files_views(fs@);
            assert(fv.skip(j as int)[0] == fv[j as int]);
            assert(fv.skip(j as int).skip(1) =~= fv.skip(j + 1));
            assert(fv[j as int] == (fs@[j as int].uri@, fs@[j as int].file_type@));
            assert(out@ =~= old(out)@ + files_json_rest(fv.skip(j as int)));
        }
    }
}

fn append_files(out: &mut String, fs: &Vec<PropertyFile>)
    ensures
        final(out)@ == old(out)@ + files_json(files_views(fs@)),
{
    if fs.len() == 0 {
        out.push('[');
        out.push(']');
        proof {
            assert(out@ =~= old(out)@ + files_json(files_views(fs@)));
        }
    } else {
        out.push('[');
        append_file_obj(out, &fs[0]);
        append_files_rest(out, fs, 1);
        proof {
            let fv = files_views(fs@);
            assert(fv[0] == (fs@[0].uri@, fs@[0].file_type@));
            assert(out@ =~= old(out)@ + files_json(fv));
        }
    }
}

fn append_creator_obj(out: &mut String, c: &Creator)
    ensures
        final(out)@ == old(out)@ + creator_json((c.address@, c.share)),
{
    out.append("{\"address\":");
    append_json_string(out, c.address.as_str());
    out.append(",\"share\":");
    let share = u32_to_string(c.share);
    out.append(share.as_str());
    out.append("}");
    proof {
        assert(out@ =~= old(out)@ + creator_json((c.address@, c.share)));
    }
}

fn append_creators_rest(out: &mut String, cs: &Vec<Creator>, j: usize)
    requires
        1 <= j <= cs@.len(),
    ensures
        final(out)@ == old(out)@ + creators_json_rest(creators_views(cs@).skip(j as int)),
    decreases cs@.len() - j,
{
    if j == cs.len() {
        out.push(']');
        proof {
            assert(creators_views(cs@).skip(j as int).len() == 0);
            assert(out@ =~= old(out)@ + creators_json_rest(creators_views(cs@).skip(j as int)));
        }
    } else {
        out.push(',');
        append_creator_obj(out, &cs[j]);
        append_creators_rest(out, cs, j + 1);
        proof {
            let cv = creators_views(cs@);
            assert(cv.skip(j as int)[0] == cv[j as int]);
            assert(cv.skip(j as int).skip(1) =~= cv.skip(j + 1));
            assert(cv[j as int] == (cs@[j as int].address@, cs@[j as int].share));
            assert(out@ =~= old(out)@ + creators_json_rest(cv.skip(j as int)));
        }
    }
}

fn append_creators(out: &mut String, cs: &Vec<Creator>)
    ensures
        final(out)@ == old(out)@ + creators_json(creators_views(cs@)),
{
    if cs.len() == 0 {
        out.push('[');
        out.push(']');
        proof {
            assert(out@ =~= old(out)@ + creators_json(creators_views(cs@)));
        }
    } else {
        out.push('[');
        append_creator_obj(out, &cs[0]);
        append_creators_rest(out, cs, 1);
        proof {
            let cv = creators_views(cs@);
            assert(cv[0] == (cs@[0].address@, cs@[0].share));
            assert(out@ =~= old(out)@ + creators_json(cv));
        }
    }
}

/// Serializes a whole metadata record, as [`record_json`] describes.
pub fn record_to_json(m: &NFTMetadata) -> (s: String)
    ensures
        s@ == record_json(*m),
{
    let mut out = String::new();
    out.append("{\"name\":");
    append_json_string(&mut out, m.name.as_str());
    out.append(",\"symbol\":");
    append_json_string(&mut out, m.symbol.as_str());
    out.append(",\"description\":");
    append_json_string(&mut out, m.description.as_str());
    out.append(",\"seller_fee_basis_points\":");
    let sfbp = u32_to_string(m.seller_fee_basis_points);
    out.append(sfbp.as_str());
    out.append(",\"image\":");
    append_json_string(&mut out, m.image.as_str());
    out.append(",\"external_url\":");
    append_json_string(&mut out, m.external_url.as_str());
    out.append(",\"edition\":");
    let ed = u32_to_string(m.edition as u32);
    out.append(ed.as_str());
    out.append(",\"attributes\":[");
    append_traits_body(&mut out, &m.attributes);
    out.append(",\"properties\":{\"files\":");
    append_files(&mut out, &m.properties.files);
    out.append(",\"category\":");
    append_json_string(&mut out, m.properties.category.as_str());
    out.append(",\"creators\":");
    append_creators(&mut out, &m.properties.creators);
    out.append("},\"collection\":{\"name\":");
    append_json_string(&mut out, m.collection.name.as_str());
    out.append(",\"family\":");
    append_json_string(&mut out, m.collection.family.as_str());
    out.append("}}");
    proof {
        assert(out@ =~= record_json(*m));
    }
    out
}


/// Consumes an expected literal prefix.
pub open spec fn eat_lit(s: Seq<char>, lit: Seq<char>) -> Option<Seq<char>> {
    if lit.len() <= s.len() && s.take(lit.len() as int) == lit {
        Some(s.skip(lit.len() as int))
    } else {
        None
    }
}

/// Consumes a whole JSON string token: the decoded value and the rest.
pub open spec fn eat_jstr(s: Seq<char>) -> Option<(Seq<char>, Seq<char>)> {
    if s.len() >= 1 && s[0] == '"' {
        parse_jstring_body(s.skip(1))
    } else {
        None
    }
}

/// A decimal digit.
pub open spec fn is_digit(c: char) -> bool {
    48 <= (c as u32) <= 57
}

/// What follows the maximal digit prefix.
pub open spec fn skip_digits(s: Seq<char>) -> Seq<char>
    decreases s.len(),
{
    if s.len() > 0 && is_digit(s[0]) {
        skip_digits(s.skip(1))
    } else {
        s
    }
}

/// Consumes a number: at least one digit, then as many as there are.
pub open spec fn eat_digits(s: Seq<char>) -> Option<Seq<char>> {
    if s.len() > 0 && is_digit(s[0]) {
        Some(skip_digits(s))
    } else {
        None
    }
}

/// Consumes one trait entry: its two strings and the rest.
pub open spec fn parse_trait_obj(s: Seq<char>) -> Option<((Seq<char>, Seq<char>), Seq<char>)> {
    match eat_lit(s, "{\"trait_type\":"@) {
        None => None,
        Some(s1) => match eat_jstr(s1) {
            None => None,
            Some((tt, s2)) => match eat_lit(s2, ",\"value\":"@) {
                None => None,
                Some(s3) => match eat_jstr(s3) {
                    None => None,
                    Some((v, s4)) => match eat_lit(s4, "}"@) {
                        None => None,
                        Some(s5) => Some(((tt, v), s5)),
                    },
                },
            },
        },
    }
}

pub proof fn lemma_parse_jstring_shrinks(s: Seq<char>)
    ensures
        parse_jstring_body(s) matches Some(q) ==> q.1.len() < s.len(),
    decreases s.len(),
{
    if s.len() == 0 {
    } else if s[0] == '"' {
    } else if s[0] == '\\' {
        if s.len() >= 6 && s[1] == 'u' {
            lemma_parse_jstring_shrinks(s.skip(6));
        }
        if s.len() >= 2 {
            lemma_parse_jstring_shrinks(s.skip(2));
        }
    } else {
        lemma_parse_jstring_shrinks(s.skip(1));
    }
}

pub proof fn lemma_parse_trait_obj_shrinks(s: Seq<char>)
    ensures
        parse_trait_obj(s) matches Some(q) ==> q.1.len() < s.len(),
{
    match eat_lit(s, "{\"trait_type\":"@) {
        None => {}
        Some(s1) => {
            lemma_parse_jstring_shrinks(s1.skip(1));
            match eat_jstr(s1) {
                None => {}
                Some((tt, s2)) => {
                    match eat_lit(s2, ",\"value\":"@) {
                        None => {}
                        Some(s3) => {
                            lemma_parse_jstring_shrinks(s3.skip(1));
                        }
                    }
                }
            }
        }
    }
}

/// Consumes the entries of a non-empty trait array, the opening bracket
/// already consumed: the decoded pairs and what follows the closing
/// bracket.
pub open spec fn parse_traits_items(s: Seq<char>) -> Option<(
    Seq<(Seq<char>, Seq<char>)>,
    Seq<char>,
)>
    decreases s.len(),
{
    match parse_trait_obj(s) {
        None => None,
        Some((t, r)) => if r.len() >= 1 && r[0] == ',' {
            proof {
                lemma_parse_trait_obj_shrinks(s);
            }
            match parse_traits_items(r.skip(1)) {
                None => None,
                Some((ts, r2)) => Some((seq![t] + ts, r2)),
            }
        } else if r.len() >= 1 && r[0] == ']' {
            Some((seq![t], r.skip(1)))
        } else {
            None
        },
    }
}

/// Consumes a field key and its string value, discarding the value.
pub open spec fn eat_str_field(s: Seq<char>, lit: Seq<char>) -> Option<Seq<char>> {
    match eat_lit(s, lit) {
        None => None,
        Some(s1) => match eat_jstr(s1) {
            None => None,
            Some(p) => Some(p.1),
        },
    }
}

/// Consumes a field key and its number value.
pub open spec fn eat_num_field(s: Seq<char>, lit: Seq<char>) -> Option<Seq<char>> {
    match eat_lit(s, lit) {
        None => None,
        Some(s1) => eat_digits(s1),
    }
}

pub open spec fn parse_hdr1(s: Seq<char>) -> Option<Seq<char>> {
    eat_str_field(s, "{\"name\":"@)
}

pub open spec fn parse_hdr2(s: Seq<char>) -> Option<Seq<char>> {
    match parse_hdr1(s) {
        None => None,
        Some(r) => eat_str_field(r, ",\"symbol\":"@),
    }
}

pub open spec fn parse_hdr3(s: Seq<char>) -> Option<Seq<char>> {
    match parse_hdr2(s) {
        None => None,
        Some(r) => eat_str_field(r, ",\"description\":"@),
    }
}

pub open spec fn parse_hdr4(s: Seq<char>) -> Option<Seq<char>> {
    match parse_hdr3(s) {
        None => None,
        Some(r) => eat_num_field(r, ",\"seller_fee_basis_points\":"@),
    }
}

pub open spec fn parse_hdr5(s: Seq<char>) -> Option<Seq<char>> {
    match parse_hdr4(s) {
        None => None,
        Some(r) => eat_str_field(r, ",\"image\":"@),
    }
}

pub open spec fn parse_hdr6(s: Seq<char>) -> Option<Seq<char>> {
    match parse_hdr5(s) {
        None => None,
        Some(r) => eat_str_field(r, ",\"external_url\":"@),
    }
}

pub open spec fn parse_hdr7(s: Seq<char>) -> Option<Seq<char>> {
    match parse_hdr6(s) {
        None => None,
        Some(r) => eat_num_field(r, ",\"edition\":"@),
    }
}

pub open spec fn parse_hdr8(s: Seq<char>) -> Option<Seq<char>> {
    match parse_hdr7(s) {
        None => None,
        Some(r) => eat_lit(r, ",\"attributes\":["@),
    }
}

/// Decodes the attribute array's body: an immediate closing bracket is
/// the empty list, anything else must be the array's entries.
pub open spec fn parse_attrs(r: Seq<char>) -> Option<Seq<(Seq<char>, Seq<char>)>> {
    if r.len() >= 1 && r[0] == ']' {
        Some(Seq::empty())
    } else {
        match parse_traits_items(r) {
            None => None,
            Some((ts, _r2)) => Some(ts),
        }
    }
}

/// Recovers the trait list of an emitted record: the leading fields are
/// consumed and checked, the attribute array is decoded, and whatever
/// follows it is ignored.
pub open spec fn parse_record_traits_spec(s: Seq<char>) -> Option<Seq<(Seq<char>, Seq<char>)>> {
    match parse_hdr8(s) {
        None => None,
        Some(r) => parse_attrs(r),
    }
}

proof fn lemma_eat_lit(lit: Seq<char>, rest: Seq<char>)
    ensures
        eat_lit(lit + rest, lit) == Some(rest),
{
    let s = lit + rest;
    assert(s.take(lit.len() as int) =~= lit);
    assert(s.skip(lit.len() as int) =~= rest);
}

proof fn lemma_eat_jstr(x: Seq<char>, rest: Seq<char>)
    ensures
        eat_jstr(jstr(x) + rest) == Some((x, rest)),
{
    let s = jstr(x) + rest;
    assert(s.len() >= 1 && s[0] == '"');
    assert(s.skip(1) =~= esc(x) + seq!['"'] + rest);
    lemma_jstring_round_trip(x, rest);
}

proof fn lemma_dec_str_digits(n: nat)
    ensures
        dec_str(n).len() >= 1,
        forall|i: int| 0 <= i < dec_str(n).len() ==> is_digit(#[trigger] dec_str(n)[i]),
    decreases n,
{
    if n >= 10 {
        lemma_dec_str_digits(n / 10);
    }
}

proof fn lemma_skip_digits_all(ds: Seq<char>, rest: Seq<char>)
    requires
        forall|i: int| 0 <= i < ds.len() ==> is_digit(#[trigger] ds[i]),
        rest.len() == 0 || !is_digit(rest[0]),
    ensures
        skip_digits(ds + rest) == rest,
    decreases ds.len(),
{
    let s = ds + rest;
    if ds.len() == 0 {
        assert(s =~= rest);
    } else {
        assert(s[0] == ds[0]);
        assert(s.skip(1) =~= ds.skip(1) + rest);
        lemma_skip_digits_all(ds.skip(1), rest);
    }
}

proof fn lemma_eat_digits(n: nat, rest: Seq<char>)
    requires
        rest.len() == 0 || !is_digit(rest[0]),
    ensures
        eat_digits(dec_str(n) + rest) == Some(rest),
{
    lemma_dec_str_digits(n);
    let s = dec_str(n) + rest;
    assert(s[0] == dec_str(n)[0]);
    lemma_skip_digits_all(dec_str(n), rest);
}

proof fn lemma_trait_obj_round_trip(t: (Seq<char>, Seq<char>), rest: Seq<char>)
    ensures
        parse_trait_obj(trait_json(t) + rest) == Some((t, rest)),
{
    let s = trait_json(t) + rest;
    let r1 = jstr(t.0) + ",\"value\":"@ + jstr(t.1) + "}"@ + rest;
    assert(s =~= "{\"trait_type\":"@ + r1);
    lemma_eat_lit("{\"trait_type\":"@, r1);
    let r2 = ",\"value\":"@ + jstr(t.1) + "}"@ + rest;
    assert(r1 =~= jstr(t.0) + r2);
    lemma_eat_jstr(t.0, r2);
    let r3 = jstr(t.1) + "}"@ + rest;
    assert(r2 =~= ",\"value\":"@ + r3);
    lemma_eat_lit(",\"value\":"@, r3);
    let r4 = "}"@ + rest;
    assert(r3 =~= jstr(t.1) + r4);
    lemma_eat_jstr(t.1, r4);
    lemma_eat_lit("}"@, rest);
}

#[verifier::rlimit(60)]
#[verifier::spinoff_prover]
proof fn lemma_traits_items_round_trip(ts: Seq<(Seq<char>, Seq<char>)>, rest: Seq<char>)
    requires
        ts.len() >= 1,
    ensures
        parse_traits_items(trait_json(ts[0]) + traits_json_rest(ts.skip(1)) + rest) == Some(
            (ts, rest),
        ),
    decreases ts.len(),
{
    let s = trait_json(ts[0]) + traits_json_rest(ts.skip(1)) + rest;
    let tail = ts.skip(1);
    assert(s =~= trait_json(ts[0]) + (traits_json_rest(tail) + rest));
    lemma_trait_obj_round_trip(ts[0], traits_json_rest(tail) + rest);
    let r = traits_json_rest(tail) + rest;
    if tail.len() == 0 {
        assert(traits_json_rest(tail) =~= seq![']']);
        assert(r[0] == ']');
        assert(r.skip(1) =~= rest);
        assert(seq![ts[0]] =~= ts);
    } else {
        assert(traits_json_rest(tail) =~= seq![','] + trait_json(tail[0]) + traits_json_rest(
            tail.skip(1),
        ));
        assert(r[0] == ',');
        assert(r.skip(1) =~= trait_json(tail[0]) + traits_json_rest(tail.skip(1)) + rest);
        lemma_traits_items_round_trip(tail, rest);
        assert(seq![ts[0]] + tail =~= ts);
    }
}

/// The emitted record, staged for the parser: each of these spec
/// functions is what remains of the record after the piece before it has
/// been consumed.
pub open spec fn tail_name(m: NFTMetadata) -> Seq<char> {
    jstr(m.name@) + tail_symbol_lit(m)
}

pub open spec fn tail_symbol_lit(m: NFTMetadata) -> Seq<char> {
    ",\"symbol\":"@ + tail_symbol(m)
}

pub open spec fn tail_symbol(m: NFTMetadata) -> Seq<char> {
    jstr(m.symbol@) + tail_desc_lit(m)
}

pub open spec fn tail_desc_lit(m: NFTMetadata) -> Seq<char> {
    ",\"description\":"@ + tail_desc(m)
}

pub open spec fn tail_desc(m: NFTMetadata) -> Seq<char> {
    jstr(m.description@) + tail_sfbp_lit(m)
}

pub open spec fn tail_sfbp_lit(m: NFTMetadata) -> Seq<char> {
    ",\"seller_fee_basis_points\":"@ + tail_sfbp(m)
}

pub open spec fn tail_sfbp(m: NFTMetadata) -> Seq<char> {
    dec_str(m.seller_fee_basis_points as nat) + tail_image_lit(m)
}

pub open spec fn tail_image_lit(m: NFTMetadata) -> Seq<char> {
    ",\"image\":"@ + tail_image(m)
}

pub open spec fn tail_image(m: NFTMetadata) -> Seq<char> {
    jstr(m.image@) + tail_ext_lit(m)
}

pub open spec fn tail_ext_lit(m: NFTMetadata) -> Seq<char> {
    ",\"external_url\":"@ + tail_ext(m)
}

pub open spec fn tail_ext(m: NFTMetadata) -> Seq<char> {
    jstr(m.external_url@) + tail_edition_lit(m)
}

pub open spec fn tail_edition_lit(m: NFTMetadata) -> Seq<char> {
    ",\"edition\":"@ + tail_edition(m)
}

pub open spec fn tail_edition(m: NFTMetadata) -> Seq<char> {
    dec_str(m.edition as nat) + tail_attrs_lit(m)
}

pub open spec fn tail_attrs_lit(m: NFTMetadata) -> Seq<char> {
    ",\"attributes\":["@ + tail_attrs(m)
}

pub open spec fn tail_attrs(m: NFTMetadata) -> Seq<char> {
    traits_body(trait_views(m.attributes@)) + tail_after_attrs(m)
}

pub open spec fn tail_after_attrs(m: NFTMetadata) -> Seq<char> {
    ",\"properties\":{\"files\":"@ + (files_json(files_views(m.properties.files@)) + (",\"category\":"@ + (jstr(m.properties.category@) + (",\"creators\":"@ + (creators_json(creators_views(m.properties.creators@)) + ("},\"collection\":{\"name\":"@ + (jstr(m.collection.name@) + (",\"family\":"@ + (jstr(m.collection.family@) + ("}}"@))))))))))
}

proof fn lemma_record_json_shape(m: NFTMetadata)
    ensures
        record_json(m) == "{\"name\":"@ + tail_name(m),
{
    let a1 = "{\"name\":"@;
    let a2 = jstr(m.name@);
    let a3 = ",\"symbol\":"@;
    let a4 = jstr(m.symbol@);
    let a5 = ",\"description\":"@;
    let a6 = jstr(m.description@);
    let a7 = ",\"seller_fee_basis_points\":"@;
    let a8 = dec_str(m.seller_fee_basis_points as nat);
    let a9 = ",\"image\":"@;
    let a10 = jstr(m.image@);
    let a11 = ",\"external_url\":"@;
    let a12 = jstr(m.external_url@);
    let a13 = ",\"edition\":"@;
    let a14 = dec_str(m.edition as nat);
    let a15 = ",\"attributes\":["@;
    let a16 = traits_body(trait_views(m.attributes@));
    let a17 = ",\"properties\":{\"files\":"@;
    let a18 = files_json(files_views(m.properties.files@));
    let a19 = ",\"category\":"@;
    let a20 = jstr(m.properties.category@);
    let a21 = ",\"creators\":"@;
    let a22 = creators_json(creators_views(m.properties.creators@));
    let a23 = "},\"collection\":{\"name\":"@;
    let a24 = jstr(m.collection.name@);
    let a25 = ",\"family\":"@;
    let a26 = jstr(m.collection.family@);
    let a27 = "}}"@;
    let s2 = a1 + a2;
    let s3 = s2 + a3;
    let s4 = s3 + a4;
    let s5 = s4 + a5;
    let s6 = s5 + a6;
    let s7 = s6 + a7;
    let s8 = s7 + a8;
    let s9 = s8 + a9;
    let s10 = s9 + a10;
    let s11 = s10 + a11;
    let s12 = s11 + a12;
    let s13 = s12 + a13;
    let s14 = s13 + a14;
    let s15 = s14 + a15;
    let s16 = s15 + a16;
    let s17 = s16 + a17;
    let s18 = s17 + a18;
    let s19 = s18 + a19;
    let s20 = s19 + a20;
    let s21 = s20 + a21;
    let s22 = s21 + a22;
    let s23 = s22 + a23;
    let s24 = s23 + a24;
    let s25 = s24 + a25;
    let s26 = s25 + a26;
    let s27 = s26 + a27;
    assert(record_json(m) == s27);
    let r27 = a27;
    let r26 = a26 + r27;
    let r25 = a25 + r26;
    let r24 = a24 + r25;
    let r23 = a23 + r24;
    let r22 = a22 + r23;
    let r21 = a21 + r22;
    let r20 = a20 + r21;
    let r19 = a19 + r20;
    let r18 = a18 + r19;
    let r17 = a17 + r18;
    let r16 = a16 + r17;
    let r15 = a15 + r16;
    let r14 = a14 + r15;
    let r13 = a13 + r14;
    let r12 = a12 + r13;
    let r11 = a11 + r12;
    let r10 = a10 + r11;
    let r9 = a9 + r10;
    let r8 = a8 + r9;
    let r7 = a7 + r8;
    let r6 = a6 + r7;
    let r5 = a5 + r6;
    let r4 = a4 + r5;
    let r3 = a3 + r4;
    let r2 = a2 + r3;
    assert(tail_after_attrs(m) == r17);
    assert(tail_attrs(m) == r16);
    assert(tail_attrs_lit(m) == r15);
    assert(tail_edition(m) == r14);
    assert(tail_edition_lit(m) == r13);
    assert(tail_ext(m) == r12);
    assert(tail_ext_lit(m) == r11);
    assert(tail_image(m) == r10);
    assert(tail_image_lit(m) == r9);
    assert(tail_sfbp(m) == r8);
    assert(tail_sfbp_lit(m) == r7);
    assert(tail_desc(m) == r6);
    assert(tail_desc_lit(m) == r5);
    assert(tail_symbol(m) == r4);
    assert(tail_symbol_lit(m) == r3);
    assert(tail_name(m) == r2);
    assert(s27 == s26 + r27);
    vstd::seq_lib::lemma_concat_associative(s25, a26, r27);
    assert(s26 + r27 == s25 + r26);
    vstd::seq_lib::lemma_concat_associative(s24, a25, r26);
    assert(s25 + r26 == s24 + r25);
    vstd::seq_lib::lemma_concat_associative(s23, a24, r25);
    assert(s24 + r25 == s23 + r24);
    vstd::seq_lib::lemma_concat_associative(s22, a23, r24);
    assert(s23 + r24 == s22 + r23);
    vstd::seq_lib::lemma_concat_associative(s21, a22, r23);
    assert(s22 + r23 == s21 + r22);
    vstd::seq_lib::lemma_concat_associative(s20, a21, r22);
    assert(s21 + r22 == s20 + r21);
    vstd::seq_lib::lemma_concat_associative(s19, a20, r21);
    assert(s20 + r21 == s19 + r20);
    vstd::seq_lib::lemma_concat_associative(s18, a19, r20);
    assert(s19 + r20 == s18 + r19);
    vstd::seq_lib::lemma_concat_associative(s17, a18, r19);
    assert(s18 + r19 == s17 + r18);
    vstd::seq_lib::lemma_concat_associative(s16, a17, r18);
    assert(s17 + r18 == s16 + r17);
    vstd::seq_lib::lemma_concat_associative(s15, a16, r17);
    assert(s16 + r17 == s15 + r16);
    vstd::seq_lib::lemma_concat_associative(s14, a15, r16);
    assert(s15 + r16 == s14 + r15);
    vstd::seq_lib::lemma_concat_associative(s13, a14, r15);
    assert(s14 + r15 == s13 + r14);
    vstd::seq_lib::lemma_concat_associative(s12, a13, r14);
    assert(s13 + r14 == s12 + r13);
    vstd::seq_lib::lemma_concat_associative(s11, a12, r13);
    assert(s12 + r13 == s11 + r12);
    vstd::seq_lib::lemma_concat_associative(s10, a11, r12);
    assert(s11 + r12 == s10 + r11);
    vstd::seq_lib::lemma_concat_associative(s9, a10, r11);
    assert(s10 + r11 == s9 + r10);
    vstd::seq_lib::lemma_concat_associative(s8, a9, r10);
    assert(s9 + r10 == s8 + r9);
    vstd::seq_lib::lemma_concat_associative(s7, a8, r9);
    assert(s8 + r9 == s7 + r8);
    vstd::seq_lib::lemma_concat_associative(s6, a7, r8);
    assert(s7 + r8 == s6 + r7);
    vstd::seq_lib::lemma_concat_associative(s5, a6, r7);
    assert(s6 + r7 == s5 + r6);
    vstd::seq_lib::lemma_concat_associative(s4, a5, r6);
    assert(s5 + r6 == s4 + r5);
    vstd::seq_lib::lemma_concat_associative(s3, a4, r5);
    assert(s4 + r5 == s3 + r4);
    vstd::seq_lib::lemma_concat_associative(s2, a3, r4);
    assert(s3 + r4 == s2 + r3);
    vstd::seq_lib::lemma_concat_associative(a1, a2, r3);
    assert(s2 + r3 == a1 + r2);
    assert(record_json(m) == a1 + r2);
}

proof fn lemma_hdr1(m: NFTMetadata)
    ensures
        parse_hdr1(record_json(m)) == Some(tail_symbol_lit(m)),
{
    lemma_record_json_shape(m);
    lemma_eat_lit("{\"name\":"@, tail_name(m));
    lemma_eat_jstr(m.name@, tail_symbol_lit(m));
}

proof fn lemma_hdr2(m: NFTMetadata)
    ensures
        parse_hdr2(record_json(m)) == Some(tail_desc_lit(m)),
{
    lemma_hdr1(m);
    lemma_eat_lit(",\"symbol\":"@, tail_symbol(m));
    lemma_eat_jstr(m.symbol@, tail_desc_lit(m));
}

proof fn lemma_hdr3(m: NFTMetadata)
    ensures
        parse_hdr3(record_json(m)) == Some(tail_sfbp_lit(m)),
{
    lemma_hdr2(m);
    lemma_eat_lit(",\"description\":"@, tail_desc(m));
    lemma_eat_jstr(m.description@, tail_sfbp_lit(m));
}

proof fn lemma_hdr4(m: NFTMetadata)
    ensures
        parse_hdr4(record_json(m)) == Some(tail_image_lit(m)),
{
    lemma_hdr3(m);
    lemma_eat_lit(",\"seller_fee_basis_points\":"@, tail_sfbp(m));
    assert(tail_image_lit(m).len() >= 1 && !is_digit(tail_image_lit(m)[0])) by {
        reveal_strlit(",\"image\":");
    }
    lemma_eat_digits(m.seller_fee_basis_points as nat, tail_image_lit(m));
}

proof fn lemma_hdr5(m: NFTMetadata)
    ensures
        parse_hdr5(record_json(m)) == Some(tail_ext_lit(m)),
{
    lemma_hdr4(m);
    lemma_eat_lit(",\"image\":"@, tail_image(m));
    lemma_eat_jstr(m.image@, tail_ext_lit(m));
}

proof fn lemma_hdr6(m: NFTMetadata)
    ensures
        parse_hdr6(record_json(m)) == Some(tail_edition_lit(m)),
{
    lemma_hdr5(m);
    lemma_eat_lit(",\"external_url\":"@, tail_ext(m));
    lemma_eat_jstr(m.external_url@, tail_edition_lit(m));
}

proof fn lemma_hdr7(m: NFTMetadata)
    ensures
        parse_hdr7(record_json(m)) == Some(tail_attrs_lit(m)),
{
    lemma_hdr6(m);
    lemma_eat_lit(",\"edition\":"@, tail_edition(m));
    assert(tail_attrs_lit(m).len() >= 1 && !is_digit(tail_attrs_lit(m)[0])) by {
        reveal_strlit(",\"attributes\":[");
    }
    lemma_eat_digits(m.edition as nat, tail_attrs_lit(m));
}

proof fn lemma_hdr8(m: NFTMetadata)
    ensures
        parse_hdr8(record_json(m)) == Some(tail_attrs(m)),
{
    lemma_hdr7(m);
    lemma_eat_lit(",\"attributes\":["@, tail_attrs(m));
}

proof fn lemma_parse_attrs_round(ts: Seq<(Seq<char>, Seq<char>)>, rest: Seq<char>)
    ensures
        parse_attrs(traits_body(ts) + rest) == Some(ts),
{
    let r = traits_body(ts) + rest;
    if ts.len() == 0 {
        assert(r =~= seq![']'] + rest);
        assert(r[0] == ']');
        assert(ts =~= Seq::<(Seq<char>, Seq<char>)>::empty());
    } else {
        lemma_traits_items_round_trip(ts, rest);
        assert(r == trait_json(ts[0]) + traits_json_rest(ts.skip(1)) + rest);
        assert(r[0] != ']') by {
            reveal_strlit("{\"trait_type\":");
            assert(trait_json(ts[0])[0] == '{');
            assert(r[0] == '{');
        }
    }
}

/// Law: the record round trip.  Parsing an emitted record recovers the
/// record's trait pairs exactly, names and values alike, in order.
pub proof fn lemma_record_round_trip(m: NFTMetadata)
    ensures
        parse_record_traits_spec(record_json(m)) == Some(trait_views(m.attributes@)),
{
    let tv = trait_views(m.attributes@);
    lemma_hdr8(m);
    lemma_parse_attrs_round(tv, tail_after_attrs(m));
    assert(tail_attrs(m) == traits_body(tv) + tail_after_attrs(m));
    assert(parse_record_traits_spec(record_json(m)) == parse_attrs(tail_attrs(m)));
}


fn eat_lit_at(s: &str, pos: usize, lit: &str) -> (r: Option<usize>)
    requires
        pos <= s@.len(),
    ensures
        match r {
            Some(p) => eat_lit(s@.skip(pos as int), lit@) == Some(s@.skip(p as int)) && pos <= p
                <= s@.len() && p - pos == lit@.len(),
            None => eat_lit(s@.skip(pos as int), lit@) is None,
        },
{
    let n = s.unicode_len();
    let ll = lit.unicode_len();
    if n - pos < ll {
        proof {
            assert(s@.skip(pos as int).len() < lit@.len());
        }
        return None;
    }
    let mut k: usize = 0;
    while k < ll
        invariant
            k <= ll,
            pos + ll <= n,
            n == s@.len(),
            ll == lit@.len(),
            forall|j: int| 0 <= j < k ==> s@[pos + j] == lit@[j],
        decreases ll - k,
    {
        if s.get_char(pos + k) != lit.get_char(k) {
            proof {
                let cur = s@.skip(pos as int);
                assert(cur.take(ll as int)[k as int] == s@[pos + k]);
                assert(cur.take(ll as int) != lit@);
            }
            return None;
        }
        k = k + 1;
    }
    proof {
        let cur = s@.skip(pos as int);
        assert(cur.take(ll as int) =~= lit@);
        assert(cur.skip(ll as int) =~= s@.skip(pos + ll));
    }
    Some(pos + ll)
}

fn eat_digits_at(s: &str, pos: usize) -> (r: Option<usize>)
    requires
        pos <= s@.len(),
    ensures
        match r {
            Some(p) => eat_digits(s@.skip(pos as int)) == Some(s@.skip(p as int)) && pos <= p
                <= s@.len(),
            None => eat_digits(s@.skip(pos as int)) is None,
        },
{
    let n = s.unicode_len();
    if pos >= n {
        return None;
    }
    let c0 = s.get_char(pos);
    let u0 = c0 as u32;
    if !(48 <= u0 && u0 <= 57) {
        proof {
            assert(s@.skip(pos as int)[0] == s@[pos as int]);
        }
        return None;
    }
    proof {
        assert(s@.skip(pos as int)[0] == s@[pos as int]);
        assert(is_digit(s@[pos as int]));
    }
    let mut i: usize = pos;
    while i < n && is_digit_char(s.get_char(i))
        invariant
            pos <= i <= n,
            n == s@.len(),
            skip_digits(s@.skip(pos as int)) == skip_digits(s@.skip(i as int)),
        decreases n - i,
    {
        proof {
            let cur = s@.skip(i as int);
            assert(cur[0] == s@[i as int]);
            assert(is_digit(cur[0]));
            assert(cur.skip(1) =~= s@.skip(i + 1));
        }
        i = i + 1;
    }
    proof {
        let cur = s@.skip(i as int);
        if i < n {
            assert(cur[0] == s@[i as int]);
            assert(!is_digit(cur[0]));
        }
        assert(skip_digits(cur) == cur);
    }
    Some(i)
}

fn parse_trait_obj_at(s: &str, pos: usize) -> (r: Option<(Trait, usize)>)
    requires
        pos <= s@.len(),
    ensures
        match r {
            Some(p) => parse_trait_obj(s@.skip(pos as int)) matches Some(q) && q.0 == p.0@ && q.1
                == s@.skip(p.1 as int) && pos < p.1 <= s@.len(),
            None => parse_trait_obj(s@.skip(pos as int)) is None,
        },
{
    let n = s.unicode_len();
    let p1 = match eat_lit_at(s, pos, "{\"trait_type\":") {
        None => {
            return None;
        }
        Some(p) => p,
    };
    if p1 >= n || s.get_char(p1) != '"' {
        proof {
            let cur = s@.skip(p1 as int);
            if p1 < n {
                assert(cur[0] == s@[p1 as int]);
            }
            assert(eat_jstr(cur) is None);
        }
        return None;
    }
    proof {
        assert(s@.skip(p1 as int)[0] == s@[p1 as int]);
        assert(s@.skip(p1 as int).skip(1) =~= s@.skip(p1 + 1));
    }
    let (tt, p2) = match parse_json_string_at(s, p1 + 1) {
        None => {
            return None;
        }
        Some(q) => q,
    };
    let p3 = match eat_lit_at(s, p2, ",\"value\":") {
        None => {
            return None;
        }
        Some(p) => p,
    };
    if p3 >= n || s.get_char(p3) != '"' {
        proof {
            let cur = s@.skip(p3 as int);
            if p3 < n {
                assert(cur[0] == s@[p3 as int]);
            }
            assert(eat_jstr(cur) is None);
        }
        return None;
    }
    proof {
        assert(s@.skip(p3 as int)[0] == s@[p3 as int]);
        assert(s@.skip(p3 as int).skip(1) =~= s@.skip(p3 + 1));
    }
    let (v, p4) = match parse_json_string_at(s, p3 + 1) {
        None => {
            return None;
        }
        Some(q) => q,
    };
    let p5 = match eat_lit_at(s, p4, "}") {
        None => {
            return None;
        }
        Some(p) => p,
    };
    let t = Trait { trait_type: tt, value: v };
    proof {
        lemma_parse_trait_obj_shrinks(s@.skip(pos as int));
        assert(s@.skip(p5 as int).len() < s@.skip(pos as int).len());
    }
    Some((t, p5))
}

/// Recovers the trait list of an emitted record, as
/// [`parse_record_traits_spec`] describes.
pub fn parse_record_traits(s: &str) -> (r: Option<Vec<Trait>>)
    ensures
        match r {
            Some(v) => parse_record_traits_spec(s@) == Some(trait_views(v@)),
            None => parse_record_traits_spec(s@) is None,
        },
{
    let n = s.unicode_len();
    proof {
        assert(s@.skip(0) =~= s@);
    }
    let p0 = match eat_lit_at(s, 0, "{\"name\":") {
        None => {
            return None;
        }
        Some(p) => p,
    };
    let p1 = match eat_jstr_skip(s, p0) {
        None => {
            return None;
        }
        Some(p) => p,
    };
    let p2 = match eat_lit_at(s, p1, ",\"symbol\":") {
        None => {
            return None;
        }
        Some(p) => p,
    };
    let p3 = match eat_jstr_skip(s, p2) {
        None => {
            return None;
        }
        Some(p) => p,
    };
    let p4 = match eat_lit_at(s, p3, ",\"description\":") {
        None => {
            return None;
        }
        Some(p) => p,
    };
    let p5 = match eat_jstr_skip(s, p4) {
        None => {
            return None;
        }
        Some(p) => p,
    };
    let p6 = match eat_lit_at(s, p5, ",\"seller_fee_basis_points\":") {
        None => {
            return None;
        }
        Some(p) => p,
    };
    let p7 = match eat_digits_at(s, p6) {
        None => {
            return None;
        }
        Some(p) => p,
    };
    let p8 = match eat_lit_at(s, p7, ",\"image\":") {
        None => {
            return None;
        }
        Some(p) => p,
    };
    let p9 = match eat_jstr_skip(s, p8) {
        None => {
            return None;
        }
        Some(p) => p,
    };
    let p10 = match eat_lit_at(s, p9, ",\"external_url\":") {
        None => {
            return None;
        }
        Some(p) => p,
    };
    let p11 = match eat_jstr_skip(s, p10) {
        None => {
            return None;
        }
        Some(p) => p,
    };
    let p12 = match eat_lit_at(s, p11, ",\"edition\":") {
        None => {
            return None;
        }
        Some(p) => p,
    };
    let p13 = match eat_digits_at(s, p12) {
        None => {
            return None;
        }
        Some(p) => p,
    };
    let p14 = match eat_lit_at(s, p13, ",\"attributes\":[") {
        None => {
            return None;
        }
        Some(p) => p,
    };
    proof {
        assert(parse_hdr1(s@) == Some(s@.skip(p1 as int)));
        assert(parse_hdr2(s@) == Some(s@.skip(p3 as int)));
        assert(parse_hdr3(s@) == Some(s@.skip(p5 as int)));
        assert(parse_hdr4(s@) == Some(s@.skip(p7 as int)));
        assert(parse_hdr5(s@) == Some(s@.skip(p9 as int)));
        assert(parse_hdr6(s@) == Some(s@.skip(p11 as int)));
        assert(parse_hdr7(s@) == Some(s@.skip(p13 as int)));
        assert(parse_hdr8(s@) == Some(s@.skip(p14 as int)));
    }
    let ghost after_hdr = s@.skip(p14 as int);
    if p14 < n && s.get_char(p14) == ']' {
        let out: Vec<Trait> = Vec::new();
        proof {
            assert(after_hdr[0] == ']');
            assert(trait_views(out@) =~= Seq::<(Seq<char>, Seq<char>)>::empty());
        }
        return Some(out);
    }
    proof {
        if p14 < n {
            assert(after_hdr[0] == s@[p14 as int]);
        }
        assert(!(after_hdr.len() >= 1 && after_hdr[0] == ']'));
    }
    let mut out: Vec<Trait> = Vec::new();
    let mut i: usize = p14;
    loop
        invariant
            p14 <= i <= n,
            n == s@.len(),
            after_hdr == s@.skip(p14 as int),
            !(after_hdr.len() >= 1 && after_hdr[0] == ']'),
            parse_hdr8(s@) == Some(after_hdr),
            match parse_traits_items(s@.skip(i as int)) {
                Some(q) => parse_traits_items(after_hdr) matches Some(q0) && q0.0 == trait_views(
                    out@,
                ) + q.0,
                None => parse_traits_items(after_hdr) is None,
            },
        decreases n - i,
    {
        let ghost cur = s@.skip(i as int);
        let (t, p) = match parse_trait_obj_at(s, i) {
            None => {
                proof {
                    assert(parse_traits_items(cur) is None);
                }
                return None;
            }
            Some(q) => q,
        };
        let ghost old_out = out@;
        out.push(t);
        if p < n && s.get_char(p) == ',' {
            proof {
                let r = s@.skip(p as int);
                assert(r[0] == s@[p as int]);
                assert(r.skip(1) =~= s@.skip(p + 1));
                match parse_traits_items(s@.skip(p + 1)) {
                    Some(q) => {
                        assert(parse_traits_items(cur) matches Some(w) && w.0 == seq![t@] + q.0);
                        assert(trait_views(out@) =~= trait_views(old_out).push(t@));
                        assert(trait_views(old_out) + (seq![t@] + q.0) =~= trait_views(out@)
                            + q.0);
                    }
                    None => {
                        assert(parse_traits_items(cur) is None);
                    }
                }
            }
            i = p + 1;
        } else if p < n && s.get_char(p) == ']' {
            proof {
                let r = s@.skip(p as int);
                assert(r[0] == s@[p as int]);
                assert(r[0] == ']' && r[0] != ',');
                assert(parse_traits_items(cur) matches Some(w) && w.0 == seq![t@]);
                assert(trait_views(out@) =~= trait_views(old_out).push(t@));
                assert(trait_views(old_out) + seq![t@] =~= trait_views(out@));
                assert(parse_traits_items(after_hdr) matches Some(q0) && q0.0 == trait_views(
                    out@,
                ));
            }
            return Some(out);
        } else {
            proof {
                let r = s@.skip(p as int);
                if p < n {
                    assert(r[0] == s@[p as int]);
                }
                assert(!(r.len() >= 1 && r[0] == ','));
                assert(!(r.len() >= 1 && r[0] == ']'));
                assert(parse_traits_items(cur) is None);
            }
            return None;
        }
    }
}

fn is_digit_char(c: char) -> (r: bool)
    ensures
        r == is_digit(c),
{
    let u = c as u32;
    48 <= u && u <= 57
}

fn eat_jstr_skip(s: &str, pos: usize) -> (r: Option<usize>)
    requires
        pos <= s@.len(),
    ensures
        match r {
            Some(p) => (match eat_jstr(s@.skip(pos as int)) {
                Some(q) => q.1 == s@.skip(p as int),
                None => false,
            }) && pos <= p <= s@.len(),
            None => eat_jstr(s@.skip(pos as int)) is None,
        },
{
    let n = s.unicode_len();
    if pos >= n || s.get_char(pos) != '"' {
        proof {
            let cur = s@.skip(pos as int);
            if pos < n {
                assert(cur[0] == s@[pos as int]);
            }
            assert(eat_jstr(cur) is None);
        }
        return None;
    }
    proof {
        assert(s@.skip(pos as int)[0] == s@[pos as int]);
        assert(s@.skip(pos as int).skip(1) =~= s@.skip(pos + 1));
    }
    match parse_json_string_at(s, pos + 1) {
        None => None,
        Some((_v, p)) => Some(p),
    }
}

fn hex_val_of(c: char) -> (v: i32)
    ensures
        v as int == hex_val(c),
        v >= -1,
{
    let u = c as u32;
    if 48 <= u && u <= 57 {
        (u - 48) as i32
    } else if 97 <= u && u <= 102 {
        (u - 87) as i32
    } else {
        -1
    }
}

} // verus!
