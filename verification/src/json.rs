use vstd::prelude::*;

verus! {

use crate::strutil::{chars_of, chars_eq_str, string_from_chars};

/// A request to create one issue, as the HTTP body carries it: a title, a
/// description (which may be empty), and whether the issue is confidential.
pub struct CreateIssue {
    pub title: String,
    pub description: String,
    pub confidential: bool,
}

/// The mathematical content of a create-issue request.
#[verifier::ext_equal]
pub ghost struct IssueFields {
    pub title: Seq<char>,
    pub description: Seq<char>,
    pub confidential: bool,
}

impl View for CreateIssue {
    type V = IssueFields;

    open spec fn view(&self) -> IssueFields {
        IssueFields {
            title: self.title@,
            description: self.description@,
            confidential: self.confidential,
        }
    }
}

/// The fields gathered so far while reading the members of the request
/// object; a member may appear at most once.
#[verifier::ext_equal]
pub ghost struct PartialFields {
    pub title: Option<Seq<char>>,
    pub description: Option<Seq<char>>,
    pub confidential: Option<bool>,
}

pub open spec fn no_fields() -> PartialFields {
    PartialFields { title: None, description: None, confidential: None }
}

pub open spec fn members_complete(acc: PartialFields) -> bool {
    acc.title is Some && acc.description is Some && acc.confidential is Some
}

pub open spec fn fields_of(acc: PartialFields) -> IssueFields
    recommends
        members_complete(acc),
{
    IssueFields {
        title: acc.title->0,
        description: acc.description->0,
        confidential: acc.confidential->0,
    }
}

/// The whitespace characters between the tokens of a body.
pub open spec fn is_json_ws(c: char) -> bool {
    c == ' ' || c == '\t' || c == '\n' || c == '\r'
}

/// The position of the first non-whitespace character at or after `i`.
pub open spec fn skip_ws(s: Seq<char>, i: int) -> int
    decreases s.len() - i,
{
    if i < 0 || i >= s.len() {
        i
    } else if is_json_ws(s[i]) {
        skip_ws(s, i + 1)
    } else {
        i
    }
}

/// What a backslash escape in a quoted string stands for.
pub open spec fn unescape_char(c: char) -> Option<char> {
    if c == '"' {
        Some('"')
    } else if c == '\\' {
        Some('\\')
    } else if c == '/' {
        Some('/')
    } else if c == 'b' {
        Some('\u{0008}')
    } else if c == 'f' {
        Some('\u{000C}')
    } else if c == 'n' {
        Some('\n')
    } else if c == 'r' {
        Some('\r')
    } else if c == 't' {
        Some('\t')
    } else {
        None
    }
}

/// Reads the rest of a quoted string that starts at `i`, just after the
/// opening quote, with `acc` holding the characters read so far: the result
/// is the whole content and the position just after the closing quote.
/// Unescaped control characters and unknown escapes are rejected.
pub open spec fn parse_string_body(s: Seq<char>, i: int, acc: Seq<char>) -> Option<(Seq<char>, int)>
    decreases s.len() - i,
{
    if i < 0 || i >= s.len() {
        None
    } else if s[i] == '"' {
        Some((acc, i + 1))
    } else if s[i] == '\\' {
        if i + 1 < s.len() {
            match unescape_char(s[i + 1]) {
                Some(c) => parse_string_body(s, i + 2, acc.push(c)),
                None => None,
            }
        } else {
            None
        }
    } else if (s[i] as u32) < 32 {
        None
    } else {
        parse_string_body(s, i + 1, acc.push(s[i]))
    }
}

/// Reads a quoted string whose opening quote stands at `i`.
pub open spec fn parse_string(s: Seq<char>, i: int) -> Option<(Seq<char>, int)> {
    if 0 <= i < s.len() && s[i] == '"' {
        parse_string_body(s, i + 1, Seq::empty())
    } else {
        None
    }
}

/// Reads the literal `true` or `false` at `i`.
pub open spec fn parse_bool(s: Seq<char>, i: int) -> Option<(bool, int)> {
    if 0 <= i && i + 4 <= s.len() && s[i] == 't' && s[i + 1] == 'r' && s[i + 2] == 'u' && s[i + 3]
        == 'e' {
        Some((true, i + 4))
    } else if 0 <= i && i + 5 <= s.len() && s[i] == 'f' && s[i + 1] == 'a' && s[i + 2] == 'l' && s[i
        + 3] == 's' && s[i + 4] == 'e' {
        Some((false, i + 5))
    } else {
        None
    }
}

/// Reads one `"key": value` member starting at `i` and records its value in
/// `acc`: the key must be one of the three known members, not yet seen, and
/// the value must have that member's type.
pub open spec fn parse_member(s: Seq<char>, i: int, acc: PartialFields) -> Option<
    (PartialFields, int),
> {
    let j = skip_ws(s, i);
    match parse_string(s, j) {
        None => None,
        Some((key, j2)) => {
            let j3 = skip_ws(s, j2);
            if !(j3 < s.len() && s[j3] == ':') {
                None
            } else {
                let j4 = skip_ws(s, j3 + 1);
                if key == "title"@ {
                    if acc.title is Some {
                        None
                    } else {
                        match parse_string(s, j4) {
                            None => None,
                            Some((v, j5)) => Some(
                                (PartialFields { title: Some(v), ..acc }, j5),
                            ),
                        }
                    }
                } else if key == "description"@ {
                    if acc.description is Some {
                        None
                    } else {
                        match parse_string(s, j4) {
                            None => None,
                            Some((v, j5)) => Some(
                                (PartialFields { description: Some(v), ..acc }, j5),
                            ),
                        }
                    }
                } else if key == "confidential"@ {
                    if acc.confidential is Some {
                        None
                    } else {
                        match parse_bool(s, j4) {
                            None => None,
                            Some((v, j5)) => Some(
                                (PartialFields { confidential: Some(v), ..acc }, j5),
                            ),
                        }
                    }
                } else {
                    None
                }
            }
        },
    }
}

/// Reads the whole request object starting at `i`: a brace, the three
/// members separated by commas in any order, and the closing brace.
pub open spec fn parse_object(s: Seq<char>, i: int) -> Option<(IssueFields, int)> {
    let j = skip_ws(s, i);
    if !(j < s.len() && s[j] == '{') {
        None
    } else {
        match parse_member(s, j + 1, no_fields()) {
            None => None,
            Some((a1, k1)) => {
                let c1 = skip_ws(s, k1);
                if !(c1 < s.len() && s[c1] == ',') {
                    None
                } else {
                    match parse_member(s, c1 + 1, a1) {
                        None => None,
                        Some((a2, k2)) => {
                            let c2 = skip_ws(s, k2);
                            if !(c2 < s.len() && s[c2] == ',') {
                                None
                            } else {
                                match parse_member(s, c2 + 1, a2) {
                                    None => None,
                                    Some((a3, k3)) => {
                                        let c3 = skip_ws(s, k3);
                                        if c3 < s.len() && s[c3] == '}' && members_complete(a3) {
                                            Some((fields_of(a3), c3 + 1))
                                        } else {
                                            None
                                        }
                                    },
                                }
                            }
                        },
                    }
                }
            },
        }
    }
}

/// What a whole request body means: the request object with nothing but
/// whitespace after it, or nothing if the body is malformed.
pub open spec fn parse_create_issue_spec(s: Seq<char>) -> Option<IssueFields> {
    match parse_object(s, 0) {
        None => None,
        Some((f, j)) => if skip_ws(s, j) == s.len() {
            Some(f)
        } else {
            None
        },
    }
}

/// Text that a quoted string can spell with the simple escapes alone: no
/// character below the space.
pub open spec fn text_ok(s: Seq<char>) -> bool {
    forall|i: int| 0 <= i < s.len() ==> (#[trigger] s[i]) as u32 >= 32
}

/// How one character is written inside a quoted string.
pub open spec fn escaped_char(c: char) -> Seq<char> {
    if c == '"' || c == '\\' {
        seq!['\\', c]
    } else {
        seq![c]
    }
}

/// How text is written inside a quoted string.
pub open spec fn escaped(s: Seq<char>) -> Seq<char>
    decreases s.len(),
{
    if s.len() == 0 {
        Seq::empty()
    } else {
        escaped_char(s[0]) + escaped(s.drop_first())
    }
}

/// A quoted string spelling the given text.
pub open spec fn quoted(s: Seq<char>) -> Seq<char> {
    seq!['"'] + escaped(s) + seq!['"']
}

pub open spec fn bool_text(b: bool) -> Seq<char> {
    if b {
        "true"@
    } else {
        "false"@
    }
}

/// One `"key": value` member of the canonical body, for each member.
pub open spec fn member_title(v: Seq<char>) -> Seq<char> {
    quoted("title"@) + seq![':'] + quoted(v)
}

pub open spec fn member_description(v: Seq<char>) -> Seq<char> {
    quoted("description"@) + seq![':'] + quoted(v)
}

pub open spec fn member_confidential(b: bool) -> Seq<char> {
    quoted("confidential"@) + seq![':'] + bool_text(b)
}

/// The canonical body spelling the given fields: the three members in their
/// usual order, with no whitespace.
pub open spec fn canonical_body(f: IssueFields) -> Seq<char> {
    seq!['{'] + (member_title(f.title) + (seq![','] + (member_description(f.description) + (seq![
        ',',
    ] + (member_confidential(f.confidential) + seq!['}'])))))
}

/// Whether the pattern stands in `s` at position `i`.
pub open spec fn matches_at(s: Seq<char>, i: int, pat: Seq<char>) -> bool {
    0 <= i && i + pat.len() <= s.len() && s.subrange(i, i + pat.len()) == pat
}

proof fn lemma_split(s: Seq<char>, i: int, a: Seq<char>, b: Seq<char>)
    requires
        matches_at(s, i, a + b),
    ensures
        matches_at(s, i, a),
        matches_at(s, i + a.len(), b),
{
    assert forall|k: int| 0 <= k < a.len() implies s.subrange(i, i + a.len())[k] == a[k] by {
        assert(s.subrange(i, i + (a + b).len())[k] == (a + b)[k]);
    }
    assert(s.subrange(i, i + a.len()) =~= a);
    assert forall|k: int| 0 <= k < b.len() implies s.subrange(
        i + a.len(),
        i + a.len() + b.len(),
    )[k] == b[k] by {
        assert(s.subrange(i, i + (a + b).len())[a.len() + k] == (a + b)[a.len() + k]);
    }
    assert(s.subrange(i + a.len(), i + a.len() + b.len()) =~= b);
}

/// Reading a quoted string's content off the canonical escaping gives back
/// exactly the text it spells.
proof fn lemma_parse_escaped_body(s: Seq<char>, i: int, t: Seq<char>, acc: Seq<char>)
    requires
        text_ok(t),
        matches_at(s, i, escaped(t) + seq!['"']),
    ensures
        parse_string_body(s, i, acc) == Some((acc + t, i + escaped(t).len() + 1)),
    decreases t.len(),
{
    if t.len() == 0 {
        assert(escaped(t) + seq!['"'] =~= seq!['"']);
        assert(s.subrange(i, i + 1)[0] == '"');
        assert(s[i] == '"');
        assert(acc + t =~= acc);
    } else {
        let c = t[0];
        let rest = t.drop_first();
        assert(text_ok(rest)) by {
            assert forall|k: int| 0 <= k < rest.len() implies (#[trigger] rest[k]) as u32
                >= 32 by {
                assert(rest[k] == t[k + 1]);
            }
        }
        assert(escaped(t) + seq!['"'] =~= escaped_char(c) + (escaped(rest) + seq!['"']));
        lemma_split(s, i, escaped_char(c), escaped(rest) + seq!['"']);
        assert((c as u32) >= 32);
        if c == '"' || c == '\\' {
            assert(s.subrange(i, i + 2)[0] == '\\');
            assert(s.subrange(i, i + 2)[1] == c);
            assert(s[i] == '\\');
            assert(s[i + 1] == c);
            assert(unescape_char(c) == Some(c));
            lemma_parse_escaped_body(s, i + 2, rest, acc.push(c));
            assert(acc.push(c) + rest =~= acc + t);
        } else {
            assert(s.subrange(i, i + 1)[0] == c);
            assert(s[i] == c);
            lemma_parse_escaped_body(s, i + 1, rest, acc.push(c));
            assert(acc.push(c) + rest =~= acc + t);
        }
    }
}

/// A canonically quoted string parses to exactly the text it spells.
proof fn lemma_parse_quoted(s: Seq<char>, i: int, t: Seq<char>)
    requires
        text_ok(t),
        matches_at(s, i, quoted(t)),
    ensures
        parse_string(s, i) == Some((t, i + quoted(t).len())),
{
    assert(quoted(t) =~= seq!['"'] + (escaped(t) + seq!['"']));
    lemma_split(s, i, seq!['"'], escaped(t) + seq!['"']);
    assert(s.subrange(i, i + 1)[0] == '"');
    assert(s[i] == '"');
    lemma_parse_escaped_body(s, i + 1, t, Seq::empty());
    assert(Seq::empty() + t =~= t);
}

/// The canonical boolean literals parse to the values they spell.
proof fn lemma_parse_bool_text(s: Seq<char>, i: int, b: bool)
    requires
        matches_at(s, i, bool_text(b)),
    ensures
        parse_bool(s, i) == Some((b, i + bool_text(b).len())),
{
    reveal_strlit("true");
    reveal_strlit("false");
    if b {
        assert(s.subrange(i, i + 4)[0] == 't');
        assert(s.subrange(i, i + 4)[1] == 'r');
        assert(s.subrange(i, i + 4)[2] == 'u');
        assert(s.subrange(i, i + 4)[3] == 'e');
    } else {
        assert(s.subrange(i, i + 5)[0] == 'f');
        assert(s.subrange(i, i + 5)[1] == 'a');
        assert(s.subrange(i, i + 5)[2] == 'l');
        assert(s.subrange(i, i + 5)[3] == 's');
        assert(s.subrange(i, i + 5)[4] == 'e');
    }
}

/// A canonical title member updates exactly the title field.
proof fn lemma_member_title(s: Seq<char>, i: int, v: Seq<char>, acc: PartialFields)
    requires
        text_ok(v),
        matches_at(s, i, member_title(v)),
        acc.title is None,
    ensures
        parse_member(s, i, acc) == Some(
            (PartialFields { title: Some(v), ..acc }, i + member_title(v).len()),
        ),
{
    reveal_strlit("title");
    assert(text_ok("title"@));
    assert(member_title(v) =~= quoted("title"@) + (seq![':'] + quoted(v)));
    lemma_split(s, i, quoted("title"@), seq![':'] + quoted(v));
    let j2 = i + quoted("title"@).len();
    lemma_split(s, j2, seq![':'], quoted(v));
    assert(s.subrange(i, i + quoted("title"@).len())[0] == '"');
    assert(s[i] == '"');
    assert(skip_ws(s, i) == i);
    lemma_parse_quoted(s, i, "title"@);
    assert(s.subrange(j2, j2 + 1)[0] == ':');
    assert(s[j2] == ':');
    assert(skip_ws(s, j2) == j2);
    let j4 = j2 + 1;
    assert(s.subrange(j4, j4 + quoted(v).len())[0] == '"');
    assert(s[j4] == '"');
    assert(skip_ws(s, j4) == j4);
    lemma_parse_quoted(s, j4, v);
}

/// A canonical description member updates exactly the description field.
proof fn lemma_member_description(s: Seq<char>, i: int, v: Seq<char>, acc: PartialFields)
    requires
        text_ok(v),
        matches_at(s, i, member_description(v)),
        acc.description is None,
    ensures
        parse_member(s, i, acc) == Some(
            (PartialFields { description: Some(v), ..acc }, i + member_description(v).len()),
        ),
{
    reveal_strlit("description");
    reveal_strlit("title");
    assert(text_ok("description"@));
    assert("description"@ != "title"@);
    assert(member_description(v) =~= quoted("description"@) + (seq![':'] + quoted(v)));
    lemma_split(s, i, quoted("description"@), seq![':'] + quoted(v));
    let j2 = i + quoted("description"@).len();
    lemma_split(s, j2, seq![':'], quoted(v));
    assert(s.subrange(i, i + quoted("description"@).len())[0] == '"');
    assert(s[i] == '"');
    assert(skip_ws(s, i) == i);
    lemma_parse_quoted(s, i, "description"@);
    assert(s.subrange(j2, j2 + 1)[0] == ':');
    assert(s[j2] == ':');
    assert(skip_ws(s, j2) == j2);
    let j4 = j2 + 1;
    assert(s.subrange(j4, j4 + quoted(v).len())[0] == '"');
    assert(s[j4] == '"');
    assert(skip_ws(s, j4) == j4);
    lemma_parse_quoted(s, j4, v);
}

/// A canonical confidential member updates exactly the confidential field.
proof fn lemma_member_confidential(s: Seq<char>, i: int, b: bool, acc: PartialFields)
    requires
        matches_at(s, i, member_confidential(b)),
        acc.confidential is None,
    ensures
        parse_member(s, i, acc) == Some(
            (PartialFields { confidential: Some(b), ..acc }, i + member_confidential(b).len()),
        ),
{
    reveal_strlit("confidential");
    reveal_strlit("title");
    reveal_strlit("description");
    reveal_strlit("true");
    reveal_strlit("false");
    assert(text_ok("confidential"@));
    assert("confidential"@ != "title"@);
    assert("confidential"@ != "description"@);
    assert(member_confidential(b) =~= quoted("confidential"@) + (seq![':'] + bool_text(b)));
    lemma_split(s, i, quoted("confidential"@), seq![':'] + bool_text(b));
    let j2 = i + quoted("confidential"@).len();
    lemma_split(s, j2, seq![':'], bool_text(b));
    assert(s.subrange(i, i + quoted("confidential"@).len())[0] == '"');
    assert(s[i] == '"');
    assert(skip_ws(s, i) == i);
    lemma_parse_quoted(s, i, "confidential"@);
    assert(s.subrange(j2, j2 + 1)[0] == ':');
    assert(s[j2] == ':');
    assert(skip_ws(s, j2) == j2);
    let j4 = j2 + 1;
    assert(s.subrange(j4, j4 + bool_text(b).len())[0] == bool_text(b)[0]);
    assert(s[j4] == bool_text(b)[0]);
    assert(!is_json_ws(s[j4]));
    assert(skip_ws(s, j4) == j4);
    lemma_parse_bool_text(s, j4, b);
}

/// Where each piece of the canonical body stands.
spec fn pos_comma1(f: IssueFields) -> int {
    1 + member_title(f.title).len() as int
}

spec fn pos_member2(f: IssueFields) -> int {
    pos_comma1(f) + 1
}

spec fn pos_comma2(f: IssueFields) -> int {
    pos_member2(f) + member_description(f.description).len() as int
}

spec fn pos_member3(f: IssueFields) -> int {
    pos_comma2(f) + 1
}

spec fn pos_close(f: IssueFields) -> int {
    pos_member3(f) + member_confidential(f.confidential).len() as int
}

proof fn lemma_canonical_layout(f: IssueFields)
    ensures
        matches_at(canonical_body(f), 1, member_title(f.title)),
        matches_at(canonical_body(f), pos_member2(f), member_description(f.description)),
        matches_at(canonical_body(f), pos_member3(f), member_confidential(f.confidential)),
        canonical_body(f).len() == pos_close(f) + 1,
        canonical_body(f)[0] == '{',
        canonical_body(f)[pos_comma1(f)] == ',',
        canonical_body(f)[pos_comma2(f)] == ',',
        canonical_body(f)[pos_close(f)] == '}',
{
    let s = canonical_body(f);
    let m1 = member_title(f.title);
    let m2 = member_description(f.description);
    let m3 = member_confidential(f.confidential);
    assert(s.subrange(0, s.len() as int) =~= s);
    assert(matches_at(s, 0, s));
    lemma_split(s, 0, seq!['{'], m1 + (seq![','] + (m2 + (seq![','] + (m3 + seq!['}'])))));
    lemma_split(s, 1, m1, seq![','] + (m2 + (seq![','] + (m3 + seq!['}']))));
    lemma_split(s, pos_comma1(f), seq![','], m2 + (seq![','] + (m3 + seq!['}'])));
    lemma_split(s, pos_member2(f), m2, seq![','] + (m3 + seq!['}']));
    lemma_split(s, pos_comma2(f), seq![','], m3 + seq!['}']);
    lemma_split(s, pos_member3(f), m3, seq!['}']);
    assert(s.subrange(0, 1)[0] == '{');
    assert(s.subrange(pos_comma1(f), pos_comma1(f) + 1)[0] == ',');
    assert(s.subrange(pos_comma2(f), pos_comma2(f) + 1)[0] == ',');
    assert(s.subrange(pos_close(f), pos_close(f) + 1)[0] == '}');
}

/// Parsing inverts the canonical rendering: the body written for any fields
/// whose texts a quoted string can spell reads back as exactly those fields.
#[verifier::rlimit(100)]
pub proof fn lemma_canonical_body_parses(f: IssueFields)
    requires
        text_ok(f.title),
        text_ok(f.description),
    ensures
        parse_create_issue_spec(canonical_body(f)) == Some(f),
{
    let s = canonical_body(f);
    lemma_canonical_layout(f);
    let comma1 = pos_comma1(f);
    let member2 = pos_member2(f);
    let comma2 = pos_comma2(f);
    let member3 = pos_member3(f);
    let close = pos_close(f);
    assert(skip_ws(s, 0) == 0);
    assert(skip_ws(s, comma1) == comma1);
    assert(skip_ws(s, comma2) == comma2);
    assert(skip_ws(s, close) == close);
    lemma_member_title(s, 1, f.title, no_fields());
    let a1 = PartialFields { title: Some(f.title), ..no_fields() };
    lemma_member_description(s, member2, f.description, a1);
    let a2 = PartialFields { description: Some(f.description), ..a1 };
    lemma_member_confidential(s, member3, f.confidential, a2);
    let a3 = PartialFields { confidential: Some(f.confidential), ..a2 };
    assert(members_complete(a3));
    assert(fields_of(a3) =~= f);
    assert(skip_ws(s, close + 1) == s.len());
    assert(parse_object(s, 0) == Some((f, close + 1)));
}

fn is_json_ws_exec(c: char) -> (r: bool)
    ensures
        r == is_json_ws(c),
{
    c == ' ' || c == '\t' || c == '\n' || c == '\r'
}

fn skip_ws_exec(s: &Vec<char>, i: usize) -> (r: usize)
    requires
        i <= s@.len(),
    ensures
        r == skip_ws(s@, i as int),
        i <= r <= s@.len(),
{
    let mut j = i;
    while j < s.len()
        invariant
            i <= j <= s@.len(),
            skip_ws(s@, i as int) == skip_ws(s@, j as int),
        decreases s@.len() - j,
    {
        if !is_json_ws_exec(s[j]) {
            return j;
        }
        j = j + 1;
    }
    j
}

fn unescape_exec(c: char) -> (r: Option<char>)
    ensures
        r == unescape_char(c),
{
    if c == '"' {
        Some('"')
    } else if c == '\\' {
        Some('\\')
    } else if c == '/' {
        Some('/')
    } else if c == 'b' {
        Some('\u{0008}')
    } else if c == 'f' {
        Some('\u{000C}')
    } else if c == 'n' {
        Some('\n')
    } else if c == 'r' {
        Some('\r')
    } else if c == 't' {
        Some('\t')
    } else {
        None
    }
}

fn scan_string(s: &Vec<char>, i: usize) -> (r: Option<(Vec<char>, usize)>)
    requires
        i <= s@.len(),
    ensures
        match r {
            Some(v) => parse_string(s@, i as int) == Some((v.0@, v.1 as int)) && v.1 <= s@.len(),
            None => parse_string(s@, i as int) is None,
        },
{
    if !(i < s.len() && s[i] == '"') {
        return None;
    }
    let mut j = i + 1;
    let mut acc: Vec<char> = Vec::new();
    while j < s.len()
        invariant
            i + 1 <= j <= s@.len(),
            parse_string(s@, i as int) == parse_string_body(s@, j as int, acc@),
        decreases s@.len() - j,
    {
        let c = s[j];
        if c == '"' {
            return Some((acc, j + 1));
        }
        if c == '\\' {
            if j + 1 >= s.len() {
                return None;
            }
            match unescape_exec(s[j + 1]) {
                Some(e) => {
                    acc.push(e);
                    j = j + 2;
                },
                None => {
                    return None;
                },
            }
        } else if (c as u32) < 32 {
            return None;
        } else {
            acc.push(c);
            j = j + 1;
        }
    }
    None
}

fn scan_bool(s: &Vec<char>, i: usize) -> (r: Option<(bool, usize)>)
    requires
        i <= s@.len(),
    ensures
        match r {
            Some(v) => parse_bool(s@, i as int) == Some((v.0, v.1 as int)) && v.1 <= s@.len(),
            None => parse_bool(s@, i as int) is None,
        },
{
    if s.len() - i >= 4 && s[i] == 't' && s[i + 1] == 'r' && s[i + 2] == 'u' && s[i + 3] == 'e' {
        Some((true, i + 4))
    } else if s.len() - i >= 5 && s[i] == 'f' && s[i + 1] == 'a' && s[i + 2] == 'l' && s[i + 3]
        == 's' && s[i + 4] == 'e' {
        Some((false, i + 5))
    } else {
        None
    }
}

struct PartialExec {
    title: Option<Vec<char>>,
    description: Option<Vec<char>>,
    confidential: Option<bool>,
}

spec fn partial_view(p: &PartialExec) -> PartialFields {
    PartialFields {
        title: match p.title {
            Some(v) => Some(v@),
            None => None,
        },
        description: match p.description {
            Some(v) => Some(v@),
            None => None,
        },
        confidential: p.confidential,
    }
}

fn scan_member(s: &Vec<char>, i: usize, acc: PartialExec) -> (r: Option<(PartialExec, usize)>)
    requires
        i <= s@.len(),
    ensures
        match r {
            Some(v) => parse_member(s@, i as int, partial_view(&acc)) == Some(
                (partial_view(&v.0), v.1 as int),
            ) && v.1 <= s@.len(),
            None => parse_member(s@, i as int, partial_view(&acc)) is None,
        },
{
    let j = skip_ws_exec(s, i);
    let (key, j2) = match scan_string(s, j) {
        Some(kv) => kv,
        None => {
            return None;
        },
    };
    let j3 = skip_ws_exec(s, j2);
    if !(j3 < s.len() && s[j3] == ':') {
        return None;
    }
    let j4 = skip_ws_exec(s, j3 + 1);
    if chars_eq_str(&key, "title") {
        if acc.title.is_some() {
            return None;
        }
        match scan_string(s, j4) {
            Some((v, j5)) => Some((PartialExec { title: Some(v), ..acc }, j5)),
            None => None,
        }
    } else if chars_eq_str(&key, "description") {
        if acc.description.is_some() {
            return None;
        }
        match scan_string(s, j4) {
            Some((v, j5)) => Some((PartialExec { description: Some(v), ..acc }, j5)),
            None => None,
        }
    } else if chars_eq_str(&key, "confidential") {
        if acc.confidential.is_some() {
            return None;
        }
        match scan_bool(s, j4) {
            Some((v, j5)) => Some((PartialExec { confidential: Some(v), ..acc }, j5)),
            None => None,
        }
    } else {
        None
    }
}

/// Reads a whole request body: exactly the object the API accepts, with the
/// three members in any order, each at most once, and nothing but whitespace
/// around it. The result holds exactly the fields the body spelled.
pub fn parse_create_issue(body: &str) -> (r: Option<CreateIssue>)
    ensures
        match r {
            Some(ci) => parse_create_issue_spec(body@) == Some(ci@),
            None => parse_create_issue_spec(body@) is None,
        },
{
    let chars = chars_of(body);
    let j = skip_ws_exec(&chars, 0);
    if !(j < chars.len() && chars[j] == '{') {
        return None;
    }
    let a0 = PartialExec { title: None, description: None, confidential: None };
    proof {
        assert(partial_view(&a0) == no_fields());
    }
    let (a1, k1) = match scan_member(&chars, j + 1, a0) {
        Some(x) => x,
        None => {
            return None;
        },
    };
    let c1 = skip_ws_exec(&chars, k1);
    if !(c1 < chars.len() && chars[c1] == ',') {
        return None;
    }
    let (a2, k2) = match scan_member(&chars, c1 + 1, a1) {
        Some(x) => x,
        None => {
            return None;
        },
    };
    let c2 = skip_ws_exec(&chars, k2);
    if !(c2 < chars.len() && chars[c2] == ',') {
        return None;
    }
    let (a3, k3) = match scan_member(&chars, c2 + 1, a2) {
        Some(x) => x,
        None => {
            return None;
        },
    };
    let c3 = skip_ws_exec(&chars, k3);
    if !(c3 < chars.len() && chars[c3] == '}') {
        return None;
    }
    let (tv, dv, cv) = match (a3.title, a3.description, a3.confidential) {
        (Some(t), Some(d), Some(c)) => (t, d, c),
        _ => {
            return None;
        },
    };
    let tail = skip_ws_exec(&chars, c3 + 1);
    if tail != chars.len() {
        return None;
    }
    Some(
        CreateIssue {
            title: string_from_chars(&tv),
            description: string_from_chars(&dv),
            confidential: cv,
        },
    )
}

} // verus!
