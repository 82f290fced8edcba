//! A scanner for the dpkg status file: records of `Key: value` lines, each
//! record ended by an empty line. It yields the names of installed packages.
use vstd::prelude::*;
use vstd::slice::slice_subrange;
use crate::text::contains_str;

verus! {

/// The input does not match the grammar at this point.
#[derive(Debug, PartialEq, Eq)]
pub struct ParseError;

pub open spec fn is_blank(b: u8) -> bool {
    b == 0x20u8 || b == 0x09u8
}

/// The first index at or after `from` that holds `b`, or `s.len()`.
pub open spec fn find_byte(s: Seq<u8>, b: u8, from: int) -> int
    decreases s.len() - from,
{
    if from >= s.len() {
        s.len() as int
    } else if s[from] == b {
        from
    } else {
        find_byte(s, b, from + 1)
    }
}

/// The first index at or after `from` that holds neither space nor tab.
pub open spec fn skip_blanks(s: Seq<u8>, from: int) -> int
    decreases s.len() - from,
{
    if from >= s.len() {
        s.len() as int
    } else if is_blank(s[from]) {
        skip_blanks(s, from + 1)
    } else {
        from
    }
}

/// A key: the bytes before the first `:`, not empty and not starting a new
/// line. Gives the key and how many bytes it takes.
pub open spec fn key_name_spec(s: Seq<u8>) -> Option<(Seq<u8>, int)> {
    let i = find_byte(s, 0x3au8, 0);
    if 0 < i < s.len() && s[0] != 0x0au8 {
        Some((s.subrange(0, i), i))
    } else {
        None
    }
}

/// A `:` and the spaces and tabs after it; gives how many bytes it takes.
pub open spec fn separator_spec(s: Seq<u8>) -> Option<int> {
    if s.len() > 0 && s[0] == 0x3au8 {
        Some(skip_blanks(s, 1))
    } else {
        None
    }
}

/// The bytes before the next line feed, which must exist.
pub open spec fn single_line_spec(s: Seq<u8>) -> Option<(Seq<u8>, int)> {
    let i = find_byte(s, 0x0au8, 0);
    if i < s.len() {
        Some((s.subrange(0, i), i))
    } else {
        None
    }
}

/// A key, a separator and a value.
pub open spec fn key_value_spec(s: Seq<u8>) -> Option<((Seq<u8>, Seq<u8>), int)> {
    match key_name_spec(s) {
        None => None,
        Some((k, a)) => match separator_spec(s.skip(a)) {
            None => None,
            Some(b) => match single_line_spec(s.skip(a + b)) {
                None => None,
                Some((v, c)) => Some(((k, v), a + b + c)),
            },
        },
    }
}

/// A key-value pair and the line feed that ends it.
pub open spec fn field_line_spec(s: Seq<u8>) -> Option<((Seq<u8>, Seq<u8>), int)> {
    match key_value_spec(s) {
        Some((kv, n)) => if n < s.len() && s[n] == 0x0au8 {
            Some((kv, n + 1))
        } else {
            None
        },
        None => None,
    }
}

/// As many field lines as there are, and how many bytes they take.
pub open spec fn field_lines(s: Seq<u8>) -> (Seq<(Seq<u8>, Seq<u8>)>, int)
    decreases s.len(),
{
    match field_line_spec(s) {
        Some((kv, n)) => if 0 < n <= s.len() {
            let (rest, m) = field_lines(s.skip(n));
            (seq![kv] + rest, n + m)
        } else {
            (Seq::empty(), 0)
        },
        None => (Seq::empty(), 0),
    }
}

/// One or more field lines.
pub open spec fn single_package_spec(s: Seq<u8>) -> Option<(Seq<(Seq<u8>, Seq<u8>)>, int)> {
    let (ls, n) = field_lines(s);
    if ls.len() > 0 {
        Some((ls, n))
    } else {
        None
    }
}

pub open spec fn pairs_view<'a>(v: Seq<(&'a [u8], &'a [u8])>) -> Seq<(Seq<u8>, Seq<u8>)> {
    v.map_values(|p: (&'a [u8], &'a [u8])| (p.0@, p.1@))
}

/// The first index at or after `from` that holds `b`, or `s.len()`.
fn find_byte_from(s: &[u8], b: u8, from: usize) -> (r: usize)
    requires
        from <= s@.len(),
    ensures
        r == find_byte(s@, b, from as int),
        from <= r <= s@.len(),
{
    let mut i = from;
    while i < s.len()
        invariant
            from <= i <= s@.len(),
            find_byte(s@, b, from as int) == find_byte(s@, b, i as int),
        decreases s@.len() - i,
    {
        if s[i] == b {
            return i;
        }
        i += 1;
    }
    i
}

/// The first index at or after `from` that holds neither space nor tab.
fn skip_blanks_from(s: &[u8], from: usize) -> (r: usize)
    requires
        from <= s@.len(),
    ensures
        r == skip_blanks(s@, from as int),
        from <= r <= s@.len(),
{
    let mut i = from;
    while i < s.len()
        invariant
            from <= i <= s@.len(),
            skip_blanks(s@, from as int) == skip_blanks(s@, i as int),
        decreases s@.len() - i,
    {
        if s[i] != 0x20u8 && s[i] != 0x09u8 {
            return i;
        }
        i += 1;
    }
    i
}

/// Reads a key: the bytes up to the first `:`, which must not be empty nor
/// start with a line feed. On failure the input is left as it was.
pub fn key_name<'a>(input: &mut &'a [u8]) -> (r: Result<&'a [u8], ParseError>)
    ensures
        match key_name_spec(old(input)@) {
            Some((k, n)) => r matches Ok(v) && v@ == k && 0 < n <= old(input)@.len()
                && final(input)@ == old(input)@.skip(n),
            None => r is Err && final(input)@ == old(input)@,
        },
{
    let s: &'a [u8] = *input;
    let i = find_byte_from(s, 0x3au8, 0);
    if 0 < i && i < s.len() && s[0] != 0x0au8 {
        *input = slice_subrange(s, i, s.len());
        assert(s@.subrange(i as int, s@.len() as int) == s@.skip(i as int));
        Ok(slice_subrange(s, 0, i))
    } else {
        Err(ParseError)
    }
}

/// Reads a `:` and the spaces and tabs after it.
pub fn separator(input: &mut &[u8]) -> (r: Result<(), ParseError>)
    ensures
        match separator_spec(old(input)@) {
            Some(n) => r is Ok && 0 < n <= old(input)@.len() && final(input)@ == old(input)@.skip(n),
            None => r is Err && final(input)@ == old(input)@,
        },
{
    let s = *input;
    if s.len() > 0 && s[0] == 0x3au8 {
        let n = skip_blanks_from(s, 1);
        *input = slice_subrange(s, n, s.len());
        assert(s@.subrange(n as int, s@.len() as int) == s@.skip(n as int));
        Ok(())
    } else {
        Err(ParseError)
    }
}

/// Reads the bytes before the next line feed, which stays in the input.
pub fn single_line<'a>(input: &mut &'a [u8]) -> (r: Result<&'a [u8], ParseError>)
    ensures
        match single_line_spec(old(input)@) {
            Some((v, n)) => r matches Ok(x) && x@ == v && 0 <= n < old(input)@.len()
                && final(input)@ == old(input)@.skip(n),
            None => r is Err && final(input)@ == old(input)@,
        },
{
    let s: &'a [u8] = *input;
    let i = find_byte_from(s, 0x0au8, 0);
    if i < s.len() {
        *input = slice_subrange(s, i, s.len());
        assert(s@.subrange(i as int, s@.len() as int) == s@.skip(i as int));
        Ok(slice_subrange(s, 0, i))
    } else {
        Err(ParseError)
    }
}

/// Reads `key: value` (the line feed after it stays in the input).
pub fn key_value<'a>(input: &mut &'a [u8]) -> (r: Result<(&'a [u8], &'a [u8]), ParseError>)
    ensures
        match key_value_spec(old(input)@) {
            Some((kv, n)) => r matches Ok(x) && (x.0@, x.1@) == kv && 0 < n <= old(input)@.len()
                && final(input)@ == old(input)@.skip(n),
            None => r is Err && final(input)@ == old(input)@,
        },
{
    let start: &'a [u8] = *input;
    let mut s: &'a [u8] = start;
    let k = match key_name(&mut s) {
        Ok(k) => k,
        Err(e) => return Err(e),
    };
    let ghost a = start@.len() - s@.len();
    let ghost after_key = s@;
    match separator(&mut s) {
        Ok(()) => {},
        Err(e) => return Err(e),
    }
    let ghost b = after_key.len() - s@.len();
    assert(start@.skip(a) == after_key);
    assert(start@.skip(a + b) =~= s@);
    let v = match single_line(&mut s) {
        Ok(v) => v,
        Err(e) => return Err(e),
    };
    assert(start@.skip(start@.len() - s@.len()) =~= s@);
    *input = s;
    Ok((k, v))
}

/// Reads `key: value` and the line feed that ends it.
fn field_line<'a>(input: &mut &'a [u8]) -> (r: Result<(&'a [u8], &'a [u8]), ParseError>)
    ensures
        match field_line_spec(old(input)@) {
            Some((kv, n)) => r matches Ok(x) && (x.0@, x.1@) == kv && 0 < n <= old(input)@.len()
                && final(input)@ == old(input)@.skip(n),
            None => r is Err && final(input)@ == old(input)@,
        },
{
    let start: &'a [u8] = *input;
    let mut s: &'a [u8] = start;
    let kv = match key_value(&mut s) {
        Ok(kv) => kv,
        Err(e) => return Err(e),
    };
    if s.len() > 0 && s[0] == 0x0au8 {
        *input = slice_subrange(s, 1, s.len());
        assert(start@.skip(start@.len() - s@.len() + 1) =~= s@.subrange(1, s@.len() as int));
        Ok(kv)
    } else {
        Err(ParseError)
    }
}

/// Reads one record: one or more `key: value` lines, each ended by a line
/// feed. On failure the input is left as it was.
pub fn single_package<'a>(input: &mut &'a [u8]) -> (r: Result<Vec<(&'a [u8], &'a [u8])>, ParseError>)
    ensures
        match single_package_spec(old(input)@) {
            Some((ps, n)) => r matches Ok(v) && pairs_view(v@) == ps && 0 < n <= old(input)@.len()
                && final(input)@ == old(input)@.skip(n),
            None => r is Err && final(input)@ == old(input)@,
        },
{
    let start: &'a [u8] = *input;
    let ghost orig = start@;
    let mut rest: &'a [u8] = start;
    let mut out: Vec<(&'a [u8], &'a [u8])> = Vec::new();
    let ghost mut consumed: int = 0;
    loop
        invariant
            0 <= consumed <= orig.len(),
            rest@ == orig.skip(consumed),
            field_lines(orig).0 == pairs_view(out@) + field_lines(rest@).0,
            field_lines(orig).1 == consumed + field_lines(rest@).1,
            out@.len() > 0 ==> consumed > 0,
        ensures
            field_lines(rest@).0.len() == 0,
        decreases rest@.len(),
    {
        let mut attempt: &'a [u8] = rest;
        match field_line(&mut attempt) {
            Ok(kv) => {
                let ghost n = rest@.len() - attempt@.len();
                let ghost before = out@;
                assert(field_lines(rest@).0 == seq![(kv.0@, kv.1@)] + field_lines(attempt@).0);
                out.push(kv);
                assert(pairs_view(out@) == pairs_view(before).push((kv.0@, kv.1@)));
                assert(orig.skip(consumed + n) =~= attempt@);
                proof {
                    consumed = consumed + n;
                }
                rest = attempt;
            },
            Err(_) => {
                assert(field_lines(rest@).0.len() == 0);
                break;
            },
        }
    }
    assert(pairs_view(out@) =~= field_lines(orig).0);
    if out.len() == 0 {
        Err(ParseError)
    } else {
        *input = rest;
        Ok(out)
    }
}

/// `Package`
pub open spec fn package_key() -> Seq<u8> {
    seq![0x50u8, 0x61u8, 0x63u8, 0x6bu8, 0x61u8, 0x67u8, 0x65u8]
}

/// `Status`
pub open spec fn status_key() -> Seq<u8> {
    seq![0x53u8, 0x74u8, 0x61u8, 0x74u8, 0x75u8, 0x73u8]
}

/// `install ` (with the space)
pub open spec fn install_prefix() -> Seq<u8> {
    seq![0x69u8, 0x6eu8, 0x73u8, 0x74u8, 0x61u8, 0x6cu8, 0x6cu8, 0x20u8]
}

/// A status value that says the package is installed.
pub open spec fn is_install_status(v: Seq<u8>) -> bool {
    v.len() > 8 && v.subrange(0, 8) == install_prefix()
}

/// The name of an installed package that the fields of a record give: the
/// last `Package` value before the first `Status` field that says
/// `install ...`, or empty when there is none. `found` is the last `Package`
/// value before `ps`.
pub open spec fn name_from(ps: Seq<(Seq<u8>, Seq<u8>)>, found: Option<Seq<u8>>) -> Seq<u8>
    decreases ps.len(),
{
    if ps.len() == 0 {
        Seq::empty()
    } else {
        let f = if ps[0].0 == package_key() {
            Some(ps[0].1)
        } else {
            found
        };
        if ps[0].0 == status_key() && is_install_status(ps[0].1) && f is Some {
            f->Some_0
        } else {
            name_from(ps.drop_first(), f)
        }
    }
}

/// A record and the name of the installed package it describes.
pub open spec fn extract_name_spec(s: Seq<u8>) -> Option<(Seq<u8>, int)> {
    match single_package_spec(s) {
        Some((ps, n)) => Some((name_from(ps, None), n)),
        None => None,
    }
}

/// A record and the empty line that ends it.
pub open spec fn record_spec(s: Seq<u8>) -> Option<(Seq<u8>, int)> {
    match extract_name_spec(s) {
        Some((nm, n)) => if n < s.len() && s[n] == 0x0au8 {
            Some((nm, n + 1))
        } else {
            None
        },
        None => None,
    }
}

/// As many records as there are, and how many bytes they take.
pub open spec fn records(s: Seq<u8>) -> (Seq<Seq<u8>>, int)
    decreases s.len(),
{
    match record_spec(s) {
        Some((nm, n)) => if 0 < n <= s.len() {
            let (rest, m) = records(s.skip(n));
            (seq![nm] + rest, n + m)
        } else {
            (Seq::empty(), 0)
        },
        None => (Seq::empty(), 0),
    }
}

/// One or more records.
pub open spec fn extract_all_names_spec(s: Seq<u8>) -> Option<(Seq<Seq<u8>>, int)> {
    let (ns, n) = records(s);
    if ns.len() > 0 {
        Some((ns, n))
    } else {
        None
    }
}

fn is_package_key(k: &[u8]) -> (r: bool)
    ensures
        r == (k@ == package_key()),
{
    let r = k.len() == 7 && k[0] == 0x50u8 && k[1] == 0x61u8 && k[2] == 0x63u8 && k[3] == 0x6bu8
        && k[4] == 0x61u8 && k[5] == 0x67u8 && k[6] == 0x65u8;
    if r {
        assert(k@ =~= package_key());
    }
    r
}

fn is_status_key(k: &[u8]) -> (r: bool)
    ensures
        r == (k@ == status_key()),
{
    let r = k.len() == 6 && k[0] == 0x53u8 && k[1] == 0x74u8 && k[2] == 0x61u8 && k[3] == 0x74u8
        && k[4] == 0x75u8 && k[5] == 0x73u8;
    if r {
        assert(k@ =~= status_key());
    }
    r
}

fn has_install_status(v: &[u8]) -> (r: bool)
    ensures
        r == is_install_status(v@),
{
    let r = v.len() > 8 && v[0] == 0x69u8 && v[1] == 0x6eu8 && v[2] == 0x73u8 && v[3] == 0x74u8
        && v[4] == 0x61u8 && v[5] == 0x6cu8 && v[6] == 0x6cu8 && v[7] == 0x20u8;
    if r {
        assert(v@.subrange(0, 8) =~= install_prefix());
    } else if v.len() > 8 {
        assert(v@.subrange(0, 8) != install_prefix()) by {
            if v@.subrange(0, 8) == install_prefix() {
                assert(v@.subrange(0, 8)[0] == v@[0]);
                assert(v@.subrange(0, 8)[7] == v@[7]);
            }
        }
    }
    r
}

/// Reads one record and gives the name of the installed package it
/// describes (empty when it describes none).
pub fn extract_name<'a>(input: &mut &'a [u8]) -> (r: Result<&'a [u8], ParseError>)
    ensures
        match extract_name_spec(old(input)@) {
            Some((nm, n)) => r matches Ok(x) && x@ == nm && 0 < n <= old(input)@.len()
                && final(input)@ == old(input)@.skip(n),
            None => r is Err && final(input)@ == old(input)@,
        },
{
    let start: &'a [u8] = *input;
    let info = match single_package(input) {
        Ok(v) => v,
        Err(e) => return Err(e),
    };
    let ghost ps = pairs_view(info@);
    let ghost taken = start@.len() - input@.len();
    assert(ps.skip(0) == ps);
    let mut found: Option<&'a [u8]> = None;
    let mut i: usize = 0;
    while i < info.len()
        invariant
            i <= info@.len(),
            ps == pairs_view(info@),
            start@ == old(input)@,
            single_package_spec(start@) == Some((ps, taken)),
            0 < taken <= start@.len(),
            input@ == start@.skip(taken),
            name_from(ps, None) == name_from(
                ps.skip(i as int),
                match found {
                    Some(f) => Some(f@),
                    None => None,
                },
            ),
        decreases info.len() - i,
    {
        let (k, v) = info[i];
        assert(ps.skip(i as int)[0] == (k@, v@));
        assert(ps.skip(i as int).drop_first() =~= ps.skip(i + 1));
        let ghost prev = match found {
            Some(f) => Some(f@),
            None => None,
        };
        if is_package_key(k) {
            found = Some(v);
        }
        if is_status_key(k) && has_install_status(v) {
            if let Some(f) = found {
                assert(name_from(ps.skip(i as int), prev) == f@);
                return Ok(f);
            }
        }
        i += 1;
    }
    Ok(slice_subrange(start, 0, 0))
}

/// Reads a record and the empty line after it.
fn record<'a>(input: &mut &'a [u8]) -> (r: Result<&'a [u8], ParseError>)
    ensures
        match record_spec(old(input)@) {
            Some((nm, n)) => r matches Ok(x) && x@ == nm && 0 < n <= old(input)@.len()
                && final(input)@ == old(input)@.skip(n),
            None => r is Err && final(input)@ == old(input)@,
        },
{
    let start: &'a [u8] = *input;
    let mut s: &'a [u8] = start;
    let name = match extract_name(&mut s) {
        Ok(name) => name,
        Err(e) => return Err(e),
    };
    if s.len() > 0 && s[0] == 0x0au8 {
        *input = slice_subrange(s, 1, s.len());
        assert(start@.skip(start@.len() - s@.len() + 1) =~= s@.subrange(1, s@.len() as int));
        Ok(name)
    } else {
        Err(ParseError)
    }
}

/// Reads one or more records, each ended by an empty line, and gives the
/// name that each one yields (empty for a record of a package that is not
/// installed). On failure the input is left as it was.
pub fn extract_all_names<'a>(input: &mut &'a [u8]) -> (r: Result<Vec<&'a [u8]>, ParseError>)
    ensures
        match extract_all_names_spec(old(input)@) {
            Some((ns, n)) => r matches Ok(v) && v@.map_values(|x: &'a [u8]| x@) == ns
                && final(input)@ == old(input)@.skip(n),
            None => r is Err && final(input)@ == old(input)@,
        },
{
    let start: &'a [u8] = *input;
    let ghost orig = start@;
    let mut rest: &'a [u8] = start;
    let mut out: Vec<&'a [u8]> = Vec::new();
    let ghost mut consumed: int = 0;
    loop
        invariant
            0 <= consumed <= orig.len(),
            rest@ == orig.skip(consumed),
            records(orig).0 == out@.map_values(|x: &'a [u8]| x@) + records(rest@).0,
            records(orig).1 == consumed + records(rest@).1,
        ensures
            records(rest@).0.len() == 0,
        decreases rest@.len(),
    {
        let mut attempt: &'a [u8] = rest;
        match record(&mut attempt) {
            Ok(name) => {
                let ghost n = rest@.len() - attempt@.len();
                let ghost before = out@;
                assert(records(rest@).0 == seq![name@] + records(attempt@).0);
                out.push(name);
                assert(out@.map_values(|x: &'a [u8]| x@) == before.map_values(|x: &'a [u8]| x@).push(
                    name@,
                ));
                assert(orig.skip(consumed + n) =~= attempt@);
                proof {
                    consumed = consumed + n;
                }
                rest = attempt;
            },
            Err(_) => {
                assert(records(rest@).0.len() == 0);
                break;
            },
        }
    }
    assert(out@.map_values(|x: &'a [u8]| x@) =~= records(orig).0);
    if out.len() == 0 {
        Err(ParseError)
    } else {
        *input = rest;
        Ok(out)
    }
}

/// What `String::from_utf8_lossy` makes of the bytes.
pub uninterp spec fn utf8_lossy(b: Seq<u8>) -> Seq<char>;

/// Relies on `String::from_utf8_lossy`: the text of the bytes, with U+FFFD
/// for each invalid sequence, a function of the bytes alone.
#[verifier::external_body]
fn lossy_string(b: &[u8]) -> (r: String)
    ensures
        r@ == utf8_lossy(b@),
{
    String::from_utf8_lossy(b).into_owned()
}

/// The distinct names, as text, among the first `k` of `names`, leaving out
/// empty ones; each kept where it first occurs.
pub open spec fn installed_names(names: Seq<Seq<u8>>, k: int) -> Seq<Seq<char>>
    decreases k,
{
    if k <= 0 {
        Seq::empty()
    } else {
        let s = installed_names(names, k - 1);
        if names[k - 1].len() == 0 || s.contains(utf8_lossy(names[k - 1])) {
            s
        } else {
            s.push(utf8_lossy(names[k - 1]))
        }
    }
}

/// The names of the installed packages that a dpkg status file lists, each
/// once. Fails when the input does not start with a record.
pub fn list_installed(input: &mut &[u8]) -> (r: Result<Vec<String>, ParseError>)
    ensures
        match extract_all_names_spec(old(input)@) {
            Some((ns, n)) => r matches Ok(v) && v.deep_view() == installed_names(ns, ns.len() as int)
                && final(input)@ == old(input)@.skip(n),
            None => r is Err && final(input)@ == old(input)@,
        },
{
    let names = match extract_all_names(input) {
        Ok(names) => names,
        Err(e) => return Err(e),
    };
    let ghost ns = names@.map_values(|x: &[u8]| x@);
    let mut result: Vec<String> = Vec::new();
    let mut i: usize = 0;
    while i < names.len()
        invariant
            i <= names@.len(),
            ns == names@.map_values(|x: &[u8]| x@),
            result.deep_view() == installed_names(ns, i as int),
        decreases names.len() - i,
    {
        let name = names[i];
        assert(ns[i as int] == name@);
        if name.len() != 0 {
            let text = lossy_string(name);
            if !contains_str(&result, text.as_str()) {
                let ghost before = result.deep_view();
                result.push(text);
                assert(result.deep_view() == before.push(utf8_lossy(ns[i as int])));
            }
        }
        i += 1;
    }
    Ok(result)
}

} // verus!
