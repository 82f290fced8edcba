//! Package identifiers of the package daemon (`name;version;arch;data`) and
//! the records that its transactions report.
use vstd::prelude::*;
use vstd::string::{StrSliceExecFns, StringExecFns};
use crate::text::chars_of;

verus! {

/// A package that a transaction reports: its info code, id and summary.
pub struct PkPackage {
    pub info: u32,
    pub package_id: String,
    pub summary: String,
}

/// Progress of one item of a running transaction.
pub struct PkProgress {
    pub id: String,
    pub status: u32,
    pub percentage: u32,
}

/// An error code and its details, as the daemon reports them.
pub struct PkError {
    pub code: u32,
    pub details: String,
}

/// A package id split in its four fields.
#[derive(Debug, Copy, Clone)]
pub struct PkPackgeId<'a> {
    pub name: &'a str,
    pub version: &'a str,
    pub arch: &'a str,
    pub data: &'a str,
}

/// The four fields of a package id, as character sequences.
pub type IdFields = (Seq<char>, Seq<char>, Seq<char>, Seq<char>);

impl<'a> PkPackgeId<'a> {
    pub open spec fn fields(&self) -> IdFields {
        (self.name@, self.version@, self.arch@, self.data@)
    }

    /// An id that holds a bare name.
    pub fn bare(name: &'a str) -> (r: PkPackgeId<'a>)
        ensures
            r.fields() == (name@, Seq::<char>::empty(), Seq::<char>::empty(), Seq::<char>::empty()),
    {
        proof {
            reveal_strlit("");
        }
        PkPackgeId { name, version: "", arch: "", data: "" }
    }
}

/// The index of the first `;` of `s` at or after `from`, or `s.len()`.
pub open spec fn next_sep(s: Seq<char>, from: int) -> int
    decreases s.len() - from,
{
    if from >= s.len() {
        s.len() as int
    } else if s[from] == ';' {
        from
    } else {
        next_sep(s, from + 1)
    }
}

/// The fields of a package id, when it has exactly four `;`-separated fields.
pub open spec fn parsed_id(s: Seq<char>) -> Option<IdFields> {
    let a = next_sep(s, 0);
    let b = next_sep(s, a + 1);
    let c = next_sep(s, b + 1);
    let d = next_sep(s, c + 1);
    if c < s.len() && d == s.len() {
        Some(
            (
                s.subrange(0, a),
                s.subrange(a + 1, b),
                s.subrange(b + 1, c),
                s.subrange(c + 1, s.len() as int),
            ),
        )
    } else {
        None
    }
}

/// The first `;` at or after `from`, or `chars.len()`.
fn find_sep(chars: &Vec<char>, from: usize) -> (r: usize)
    requires
        from <= chars.len(),
    ensures
        r == next_sep(chars@, from as int),
        from <= r <= chars.len(),
{
    let mut i = from;
    while i < chars.len()
        invariant
            from <= i <= chars.len(),
            next_sep(chars@, from as int) == next_sep(chars@, i as int),
        decreases chars.len() - i,
    {
        if chars[i] == ';' {
            return i;
        }
        i += 1;
    }
    i
}

/// Splits a package id into name, version, architecture and origin; `None`
/// unless it has exactly four `;`-separated fields.
pub fn parse_package_id<'a>(package_id: &'a str) -> (r: Option<PkPackgeId<'a>>)
    ensures
        match r {
            Some(id) => parsed_id(package_id@) == Some(id.fields()),
            None => parsed_id(package_id@) is None,
        },
{
    let chars = chars_of(package_id);
    let n = chars.len();
    let a = find_sep(&chars, 0);
    if a == n {
        return None;
    }
    let b = find_sep(&chars, a + 1);
    if b == n {
        return None;
    }
    let c = find_sep(&chars, b + 1);
    if c == n {
        return None;
    }
    let d = find_sep(&chars, c + 1);
    if d != n {
        return None;
    }
    Some(
        PkPackgeId {
            name: package_id.substring_char(0, a),
            version: package_id.substring_char(a + 1, b),
            arch: package_id.substring_char(b + 1, c),
            data: package_id.substring_char(c + 1, n),
        },
    )
}

/// `name (version) [arch]` for a well-formed id, `? (?)` otherwise.
pub open spec fn humanized(s: Seq<char>) -> Seq<char> {
    match parsed_id(s) {
        Some(f) => f.0 + " ("@ + f.1 + ") ["@ + f.2 + "]"@,
        None => "? (?)"@,
    }
}

/// A package id as people read it: `name (version) [arch]`.
pub fn humanize_package_id(package_id: &str) -> (r: String)
    ensures
        r@ == humanized(package_id@),
{
    match parse_package_id(package_id) {
        Some(id) => {
            let mut out = String::from_str(id.name);
            out.append(" (");
            out.append(id.version);
            out.append(") [");
            out.append(id.arch);
            out.append("]");
            out
        },
        None => String::from_str("? (?)"),
    }
}

/// The sequence holds no `;`.
pub open spec fn no_sep(s: Seq<char>) -> bool {
    forall|i: int| 0 <= i < s.len() ==> s[i] != ';'
}

/// The four fields joined by `;`.
pub open spec fn joined(f: IdFields) -> Seq<char> {
    f.0 + seq![';'] + f.1 + seq![';'] + f.2 + seq![';'] + f.3
}

proof fn lemma_next_sep_bounds(s: Seq<char>, from: int)
    requires
        0 <= from <= s.len(),
    ensures
        from <= next_sep(s, from) <= s.len(),
        next_sep(s, from) < s.len() ==> s[next_sep(s, from)] == ';',
        forall|i: int| from <= i < next_sep(s, from) ==> s[i] != ';',
    decreases s.len() - from,
{
    if from < s.len() && s[from] != ';' {
        lemma_next_sep_bounds(s, from + 1);
    }
}

proof fn lemma_next_sep_at(s: Seq<char>, from: int, k: int)
    requires
        0 <= from <= k <= s.len(),
        forall|i: int| from <= i < k ==> s[i] != ';',
        k == s.len() || s[k] == ';',
    ensures
        next_sep(s, from) == k,
    decreases k - from,
{
    if from < k {
        lemma_next_sep_at(s, from + 1, k);
    }
}

/// A string of exactly four `;`-separated fields parses to those fields.
pub proof fn lemma_four_fields_parse(f: IdFields)
    requires
        no_sep(f.0),
        no_sep(f.1),
        no_sep(f.2),
        no_sep(f.3),
    ensures
        parsed_id(joined(f)) == Some(f),
{
    let s = joined(f);
    let a = f.0.len() as int;
    let b = a + 1 + f.1.len();
    let c = b + 1 + f.2.len();
    assert(s.len() == c + 1 + f.3.len());
    assert forall|i: int| 0 <= i < a implies s[i] != ';' by {
        assert(s[i] == f.0[i]);
    }
    assert(s[a] == ';');
    lemma_next_sep_at(s, 0, a);
    assert forall|i: int| a + 1 <= i < b implies s[i] != ';' by {
        assert(s[i] == f.1[i - a - 1]);
    }
    assert(s[b] == ';');
    lemma_next_sep_at(s, a + 1, b);
    assert forall|i: int| b + 1 <= i < c implies s[i] != ';' by {
        assert(s[i] == f.2[i - b - 1]);
    }
    assert(s[c] == ';');
    lemma_next_sep_at(s, b + 1, c);
    assert forall|i: int| c + 1 <= i < s.len() implies s[i] != ';' by {
        assert(s[i] == f.3[i - c - 1]);
    }
    lemma_next_sep_at(s, c + 1, s.len() as int);
    assert(s.subrange(0, a) == f.0);
    assert(s.subrange(a + 1, b) == f.1);
    assert(s.subrange(b + 1, c) == f.2);
    assert(s.subrange(c + 1, s.len() as int) == f.3);
}

/// What parses is four `;`-free fields joined by `;`: any other number of
/// fields fails.
pub proof fn lemma_parsed_fields_join(s: Seq<char>)
    requires
        parsed_id(s) is Some,
    ensures
        joined(parsed_id(s)->Some_0) == s,
        no_sep(parsed_id(s)->Some_0.0),
        no_sep(parsed_id(s)->Some_0.1),
        no_sep(parsed_id(s)->Some_0.2),
        no_sep(parsed_id(s)->Some_0.3),
{
    let a = next_sep(s, 0);
    lemma_next_sep_bounds(s, 0);
    let b = next_sep(s, a + 1);
    lemma_next_sep_bounds(s, a + 1);
    let c = next_sep(s, b + 1);
    lemma_next_sep_bounds(s, b + 1);
    lemma_next_sep_bounds(s, c + 1);
    let f = parsed_id(s)->Some_0;
    assert(joined(f) =~= s);
}

} // verus!
