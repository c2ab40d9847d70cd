//! The kernel's tracepoint event format: names, sizes and signedness of an
//! event's fields, parsed from the format text the kernel exports.
//!
//! The format text starts with three heading lines; each field line after
//! them begins with a tab and carries colon-and-semicolon separated
//! columns. An empty line is skipped; the first line not starting with a
//! tab ends the field list.

use crate::text::{find_char, parse_usize, spec_find, spec_parse_usize, str_eq};
use vstd::prelude::*;

verus! {

/// A field-format line could not be read.
#[derive(Clone, Copy, Debug, Eq, Hash, PartialEq, Structural)]
pub struct EventParseError;

/// The shape of one event field: a plain value or an array.
#[derive(Clone, Copy, Debug, Eq, Hash, PartialEq, Structural)]
pub enum FieldFormat {
    Simple { signed: bool, size: usize },
    Array { signed: bool, size: usize, len: usize },
}

/// The parsed format of one tracepoint event.
#[derive(Clone, Debug, Eq, PartialEq)]
pub struct EventFormat {
    pub fields: Vec<(String, FieldFormat)>,
}

/// The index of the first `a` or `b` in `s`, or -1 when there is none.
pub open spec fn spec_find2(s: Seq<char>, a: char, b: char) -> int
    decreases s.len(),
{
    if s.len() == 0 {
        -1
    } else if s[0] == a || s[0] == b {
        0
    } else {
        let r = spec_find2(s.drop_first(), a, b);
        if r < 0 {
            -1
        } else {
            r + 1
        }
    }
}

/// What the first-occurrence index of two characters means.
pub proof fn lemma_find2(s: Seq<char>, a: char, b: char)
    ensures
        spec_find2(s, a, b) >= 0 ==> 0 <= spec_find2(s, a, b) < s.len() && (s[spec_find2(
            s,
            a,
            b,
        )] == a || s[spec_find2(s, a, b)] == b) && forall|q: int|
            0 <= q < spec_find2(s, a, b) ==> s[q] != a && s[q] != b,
        spec_find2(s, a, b) < 0 ==> forall|q: int| 0 <= q < s.len() ==> s[q] != a && s[q] != b,
    decreases s.len(),
{
    if s.len() > 0 && s[0] != a && s[0] != b {
        lemma_find2(s.drop_first(), a, b);
        let t = s.drop_first();
        let r = spec_find2(t, a, b);
        if r >= 0 {
            assert(s[r + 1] == t[r]);
            assert forall|q: int| 0 <= q < r + 1 implies s[q] != a && s[q] != b by {
                if q > 0 {
                    assert(t[q - 1] == s[q]);
                }
            }
        } else {
            assert forall|q: int| 0 <= q < s.len() implies s[q] != a && s[q] != b by {
                if q > 0 {
                    assert(t[q - 1] == s[q]);
                }
            }
        }
    }
}

/// A position holding `a` or `b` with none before it is the first.
proof fn lemma_find2_is(s: Seq<char>, a: char, b: char, i: int)
    requires
        0 <= i < s.len(),
        s[i] == a || s[i] == b,
        forall|q: int| 0 <= q < i ==> s[q] != a && s[q] != b,
    ensures
        spec_find2(s, a, b) == i,
{
    lemma_find2(s, a, b);
}

/// Finds the first `a` or `b` in `s`.
fn find_char2(s: &str, a: char, b: char) -> (r: Option<usize>)
    ensures
        match r {
            Some(i) => i as int == spec_find2(s@, a, b) && i < s@.len(),
            None => spec_find2(s@, a, b) < 0,
        },
{
    let len = s.unicode_len();
    let mut i: usize = 0;
    while i < len
        invariant
            len == s@.len(),
            0 <= i <= len,
            forall|q: int| 0 <= q < i ==> s@[q] != a && s@[q] != b,
        decreases len - i,
    {
        let c = s.get_char(i);
        if c == a || c == b {
            proof {
                lemma_find2_is(s@, a, b, i as int);
            }
            return Some(i);
        }
        i += 1;
    }
    proof {
        lemma_find2(s@, a, b);
        if spec_find2(s@, a, b) >= 0 {
            assert(s@[spec_find2(s@, a, b)] == a || s@[spec_find2(s@, a, b)] == b);
        }
    }
    None
}

/// The second colon-or-semicolon separated segment of a column text.
pub open spec fn spec_column(s: Seq<char>) -> Option<Seq<char>> {
    let i = spec_find2(s, ':', ';');
    if i < 0 {
        None
    } else {
        let rest = s.subrange(i + 1, s.len() as int);
        let j = spec_find2(rest, ':', ';');
        if j < 0 {
            Some(rest)
        } else {
            Some(rest.subrange(0, j))
        }
    }
}

/// Extracts a column's value: the text between its first separator and the
/// next. A missing input or a column without a separator is an error.
pub fn parse_column(input: Option<&str>) -> (r: Result<String, EventParseError>)
    ensures
        match input {
            None => r is Err,
            Some(s) => match spec_column(s@) {
                Some(c) => r is Ok && (r->Ok_0)@ == c,
                None => r is Err,
            },
        },
{
    let s = match input {
        Some(s) => s,
        None => {
            return Err(EventParseError);
        }
    };
    let len = s.unicode_len();
    let i = match find_char2(s, ':', ';') {
        Some(i) => i,
        None => {
            return Err(EventParseError);
        }
    };
    let rest = s.substring_char(i + 1, len);
    let rest_len = rest.unicode_len();
    match find_char2(rest, ':', ';') {
        Some(j) => Ok(rest.substring_char(0, j).to_owned()),
        None => Ok(rest.to_owned()),
    }
}

/// Reads a column as a decimal size.
pub fn parse_size(input: Option<&str>) -> (r: Result<usize, EventParseError>)
    ensures
        match input {
            None => r is Err,
            Some(s) => match spec_column(s@) {
                None => r is Err,
                Some(c) => match spec_parse_usize(c) {
                    None => r is Err,
                    Some(v) => r == Ok::<usize, EventParseError>(v),
                },
            },
        },
{
    let col = match parse_column(input) {
        Ok(c) => c,
        Err(e) => {
            return Err(e);
        }
    };
    match parse_usize(col.as_str()) {
        Some(v) => Ok(v),
        None => Err(EventParseError),
    }
}

/// Reads a column as a signedness flag: `0` or `1`.
pub fn parse_signed(input: Option<&str>) -> (r: Result<bool, EventParseError>)
    ensures
        match input {
            None => r is Err,
            Some(s) => match spec_column(s@) {
                None => r is Err,
                Some(c) => if c == "0"@ {
                    r == Ok::<bool, EventParseError>(false)
                } else if c == "1"@ {
                    r == Ok::<bool, EventParseError>(true)
                } else {
                    r is Err
                },
            },
        },
{
    let col = match parse_column(input) {
        Ok(c) => c,
        Err(e) => {
            return Err(e);
        }
    };
    if str_eq(col.as_str(), "0") {
        Ok(false)
    } else if str_eq(col.as_str(), "1") {
        Ok(true)
    } else {
        Err(EventParseError)
    }
}

/// What a field declaration yields: the name and, for an array, its length.
/// The declaration is the last space-separated word of the column; a
/// bracketed suffix gives the length.
pub open spec fn spec_decl(c: Seq<char>) -> Option<(Seq<char>, Option<usize>)> {
    let sp = crate::text::spec_rfind(c, ' ');
    let word = c.subrange(sp + 1, c.len() as int);
    let br = spec_find2(word, '[', ']');
    if br < 0 {
        Some((word, None))
    } else {
        let name = word.subrange(0, br);
        let rest = word.subrange(br + 1, word.len() as int);
        let br2 = spec_find2(rest, '[', ']');
        let lent = if br2 < 0 {
            rest
        } else {
            rest.subrange(0, br2)
        };
        match spec_parse_usize(lent) {
            Some(l) => Some((name, Some(l))),
            None => None,
        }
    }
}

/// Reads a field declaration out of a column.
pub fn parse_decl(input: Option<&str>) -> (r: Result<(String, Option<usize>), EventParseError>)
    ensures
        match input {
            None => r is Err,
            Some(s) => match spec_column(s@) {
                None => r is Err,
                Some(c) => match spec_decl(c) {
                    None => r is Err,
                    Some(p) => r is Ok && (r->Ok_0.0)@ == p.0 && r->Ok_0.1 == p.1,
                },
            },
        },
{
    let col = match parse_column(input) {
        Ok(c) => c,
        Err(e) => {
            return Err(e);
        }
    };
    let cs = col.as_str();
    let cs_len = cs.unicode_len();
    let word = match crate::text::rfind_char(cs, ' ') {
        Some(sp) => cs.substring_char(sp + 1, cs_len),
        None => cs,
    };
    proof {
        crate::text::lemma_rfind(cs@, ' ');
        if crate::text::spec_rfind(cs@, ' ') < 0 {
            assert(cs@.subrange(crate::text::spec_rfind(cs@, ' ') + 1, cs@.len() as int) =~= cs@);
        }
    }
    let word_len = word.unicode_len();
    match find_char2(word, '[', ']') {
        None => Ok((word.to_owned(), None)),
        Some(br) => {
            let name = word.substring_char(0, br);
            let rest = word.substring_char(br + 1, word_len);
            let rest_len = rest.unicode_len();
            let lent = match find_char2(rest, '[', ']') {
                Some(br2) => rest.substring_char(0, br2),
                None => rest,
            };
            match parse_usize(lent) {
                Some(l) => Ok((name.to_owned(), Some(l))),
                None => Err(EventParseError),
            }
        }
    }
}

impl EventFormat {
    /// An empty format, before any field line is read.
    pub fn new() -> (r: EventFormat)
        ensures
            r.fields@.len() == 0,
    {
        EventFormat { fields: Vec::new() }
    }

    /// The fields, in the order the format text lists them.
    pub fn fields(&self) -> (r: &Vec<(String, FieldFormat)>)
        ensures
            r@ == self.fields@,
    {
        &self.fields
    }

    /// Appends one parsed field.
    pub fn add_field(&mut self, name: String, format: FieldFormat)
        ensures
            final(self).fields@ == old(self).fields@.push((name, format)),
    {
        self.fields.push((name, format));
    }
}

/// The tab-separated field `k` of a line, counting from zero.
pub open spec fn spec_tab_field(s: Seq<char>, k: nat) -> Option<Seq<char>>
    decreases k,
{
    let i = spec_find(s, '\t');
    if k == 0 {
        if i < 0 {
            Some(s)
        } else {
            Some(s.subrange(0, i))
        }
    } else {
        if i < 0 {
            None
        } else {
            spec_tab_field(s.subrange(i + 1, s.len() as int), (k - 1) as nat)
        }
    }
}

/// Returns the tab-separated field `k` of a line.
pub fn tab_field<'a>(s: &'a str, k: usize) -> (r: Option<&'a str>)
    ensures
        match r {
            Some(t) => spec_tab_field(s@, k as nat) == Some(t@),
            None => spec_tab_field(s@, k as nat) is None,
        },
    decreases k,
{
    let len = s.unicode_len();
    match find_char(s, '\t') {
        None => {
            if k == 0 {
                Some(s)
            } else {
                None
            }
        }
        Some(i) => {
            if k == 0 {
                Some(s.substring_char(0, i))
            } else {
                tab_field(s.substring_char(i + 1, len), k - 1)
            }
        }
    }
}

/// What one field line of the format text yields: the declared name and
/// its shape, read from the line's second, fourth and fifth tab fields.
/// An array of length zero is refused rather than divided by.
pub open spec fn spec_parse_field_line(s: Seq<char>) -> Option<(Seq<char>, FieldFormat)> {
    match spec_tab_field(s, 1) {
        None => None,
        Some(decl_text) => match spec_column(decl_text) {
            None => None,
            Some(decl_col) => match spec_decl(decl_col) {
                None => None,
                Some((name, len)) => match spec_tab_field(s, 3) {
                    None => None,
                    Some(size_text) => match spec_column(size_text) {
                        None => None,
                        Some(size_col) => match spec_parse_usize(size_col) {
                            None => None,
                            Some(size) => match spec_tab_field(s, 4) {
                                None => None,
                                Some(signed_text) => match spec_column(signed_text) {
                                    None => None,
                                    Some(signed_col) => {
                                        let signed = if signed_col == "1"@ {
                                            Some(true)
                                        } else if signed_col == "0"@ {
                                            Some(false)
                                        } else {
                                            None
                                        };
                                        match signed {
                                            None => None,
                                            Some(sg) => match len {
                                                None => Some(
                                                    (name, FieldFormat::Simple {
                                                        signed: sg,
                                                        size,
                                                    }),
                                                ),
                                                Some(l) => if l > 0 {
                                                    Some(
                                                        (name, FieldFormat::Array {
                                                            signed: sg,
                                                            size: size / l,
                                                            len: l,
                                                        }),
                                                    )
                                                } else {
                                                    None
                                                },
                                            },
                                        }
                                    },
                                },
                            },
                        },
                    },
                },
            },
        },
    }
}

/// Parses one field line of the format text, exactly as
/// [`spec_parse_field_line`] says.
pub fn parse_field_line(line: &str) -> (r: Result<(String, FieldFormat), EventParseError>)
    ensures
        match r {
            Ok(p) => spec_parse_field_line(line@) == Some((p.0@, p.1)),
            Err(_) => spec_parse_field_line(line@) is None,
        },
{
    proof {
        reveal_strlit("0");
        reveal_strlit("1");
        assert("0"@.len() == 1);
        assert("1"@.len() == 1);
        assert("0"@[0] != "1"@[0]);
    }
    let decl_text = tab_field(line, 1);
    let (name, len) = match parse_decl(decl_text) {
        Ok(p) => p,
        Err(e) => {
            return Err(e);
        }
    };
    let size = match parse_size(tab_field(line, 3)) {
        Ok(v) => v,
        Err(e) => {
            return Err(e);
        }
    };
    let signed = match parse_signed(tab_field(line, 4)) {
        Ok(v) => v,
        Err(e) => {
            return Err(e);
        }
    };
    match len {
        None => Ok((name, FieldFormat::Simple { signed, size })),
        Some(l) => {
            if l > 0 {
                Ok((name, FieldFormat::Array { signed, size: size / l, len: l }))
            } else {
                Err(EventParseError)
            }
        }
    }
}

/// The character sequences of a list of lines.
pub open spec fn line_views(s: Seq<String>) -> Seq<Seq<char>> {
    Seq::new(s.len(), |i: int| s[i]@)
}

/// The field list as character sequences.
pub open spec fn field_views(s: Seq<(String, FieldFormat)>) -> Seq<(Seq<char>, FieldFormat)> {
    Seq::new(s.len(), |i: int| (s[i].0@, s[i].1))
}

/// The fields the format text lists from line `k` on: an empty line is
/// skipped, the first line not starting with a tab ends the list, and a
/// field line that does not parse spoils the whole read.
pub open spec fn spec_collect_fields(lines: Seq<Seq<char>>, k: int) -> Option<
    Seq<(Seq<char>, FieldFormat)>,
>
    decreases lines.len() - k,
{
    if k < 0 || k >= lines.len() {
        Some(Seq::empty())
    } else {
        let line = lines[k];
        if line.len() == 0 {
            spec_collect_fields(lines, k + 1)
        } else if line[0] != '\t' {
            Some(Seq::empty())
        } else {
            match spec_parse_field_line(line) {
                None => None,
                Some(f) => match spec_collect_fields(lines, k + 1) {
                    None => None,
                    Some(rest) => Some(seq![f] + rest),
                },
            }
        }
    }
}

impl EventFormat {
    /// Reads a whole format text, split into lines: the three heading
    /// lines are skipped, then every field line is parsed in order, exactly
    /// as [`spec_collect_fields`] says.
    pub fn parse(lines: &Vec<String>) -> (r: Result<EventFormat, EventParseError>)
        ensures
            match r {
                Ok(ef) => spec_collect_fields(line_views(lines@), 3) == Some(
                    field_views(ef.fields@),
                ),
                Err(_) => spec_collect_fields(line_views(lines@), 3) is None,
            },
    {
        let ghost lv = line_views(lines@);
        let mut ef = EventFormat { fields: Vec::new() };
        let mut k: usize = 3;
        proof {
            if spec_collect_fields(lv, 3) is Some {
                assert(field_views(ef.fields@) + spec_collect_fields(lv, 3)->0
                    =~= spec_collect_fields(lv, 3)->0);
            }
        }
        while k < lines.len()
            invariant
                3 <= k,
                lv == line_views(lines@),
                match spec_collect_fields(lv, k as int) {
                    Some(rest) => spec_collect_fields(lv, 3) == Some(
                        field_views(ef.fields@) + rest,
                    ),
                    None => spec_collect_fields(lv, 3) is None,
                },
            decreases lines@.len() - k,
        {
            let line = &lines[k];
            proof {
                assert(lv[k as int] == lines@[k as int]@);
            }
            let len = line.as_str().unicode_len();
            if len == 0 {
                k += 1;
                continue ;
            }
            if line.as_str().get_char(0) != '\t' {
                proof {
                    assert(spec_collect_fields(lv, k as int) == Some(
                        Seq::<(Seq<char>, FieldFormat)>::empty(),
                    ));
                    assert(field_views(ef.fields@) + Seq::<(Seq<char>, FieldFormat)>::empty()
                        =~= field_views(ef.fields@));
                }
                return Ok(ef);
            }
            match parse_field_line(line.as_str()) {
                Err(e) => {
                    return Err(e);
                }
                Ok((name, format)) => {
                    let ghost before = ef.fields@;
                    let ghost f = (name@, format);
                    ef.add_field(name, format);
                    proof {
                        assert(field_views(ef.fields@) =~= field_views(before) + seq![f]);
                        if spec_collect_fields(lv, k + 1) is Some {
                            assert((field_views(before) + seq![f]) + spec_collect_fields(
                                lv,
                                k + 1,
                            )->0 =~= field_views(before) + (seq![f] + spec_collect_fields(
                                lv,
                                k + 1,
                            )->0));
                        }
                    }
                }
            }
            k += 1;
        }
        proof {
            assert(spec_collect_fields(lv, k as int) == Some(
                Seq::<(Seq<char>, FieldFormat)>::empty(),
            ));
            assert(field_views(ef.fields@) + Seq::<(Seq<char>, FieldFormat)>::empty()
                =~= field_views(ef.fields@));
        }
        Ok(ef)
    }
}

} // verus!
