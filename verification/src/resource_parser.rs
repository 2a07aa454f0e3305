//! Line-level parsing of model and material-library sources: splitting a
//! line into fields, trimming whitespace, reading whole numbers, and
//! turning face statements into vertex-reference bundles.

use vstd::prelude::*;
use vstd::string::*;
use crate::error::ResourceParseError;
use crate::types::IndexBundle;

verus! {

/// The one separator between fields of a line.
pub open spec fn is_sep(c: char) -> bool {
    c == ' '
}

/// Separators between the components of one face field.
pub open spec fn is_slash(c: char) -> bool {
    c == '/' || c == '\\'
}

/// Whitespace stripped from the ends of a field.
pub open spec fn is_ws(c: char) -> bool {
    c == ' ' || c == '\t' || c == '\r' || c == '\n'
}

/// The fields of `s` from position `i` on, with `cur` the partial field
/// read so far: maximal runs of non-space characters.
pub open spec fn tokens_from(s: Seq<char>, i: int, cur: Seq<char>) -> Seq<Seq<char>>
    decreases s.len() - i,
{
    if i < 0 || i >= s.len() {
        if cur.len() > 0 {
            seq![cur]
        } else {
            Seq::empty()
        }
    } else if is_sep(s[i]) {
        if cur.len() > 0 {
            seq![cur] + tokens_from(s, i + 1, Seq::empty())
        } else {
            tokens_from(s, i + 1, Seq::empty())
        }
    } else {
        tokens_from(s, i + 1, cur.push(s[i]))
    }
}

/// The space-separated fields of a line, empties dropped.
pub open spec fn tokens_of(s: Seq<char>) -> Seq<Seq<char>> {
    tokens_from(s, 0, Seq::empty())
}

/// The slash-separated pieces of `s` from `i` on; empties are kept, and
/// even an empty input yields one (empty) piece.
pub open spec fn fields_from(s: Seq<char>, i: int, cur: Seq<char>) -> Seq<Seq<char>>
    decreases s.len() - i,
{
    if i < 0 || i >= s.len() {
        seq![cur]
    } else if is_slash(s[i]) {
        seq![cur] + fields_from(s, i + 1, Seq::empty())
    } else {
        fields_from(s, i + 1, cur.push(s[i]))
    }
}

/// The slash-separated pieces of one face field.
pub open spec fn fields_of(s: Seq<char>) -> Seq<Seq<char>> {
    fields_from(s, 0, Seq::empty())
}

/// Count of leading whitespace characters.
pub open spec fn ws_prefix(s: Seq<char>) -> int
    decreases s.len(),
{
    if s.len() == 0 || !is_ws(s[0]) {
        0
    } else {
        1 + ws_prefix(s.drop_first())
    }
}

/// Count of trailing whitespace characters.
pub open spec fn ws_suffix(s: Seq<char>) -> int
    decreases s.len(),
{
    if s.len() == 0 || !is_ws(s.last()) {
        0
    } else {
        1 + ws_suffix(s.drop_last())
    }
}

/// `s` with leading and trailing whitespace stripped.
pub open spec fn trim_spec(s: Seq<char>) -> Seq<char> {
    if ws_prefix(s) == s.len() {
        Seq::empty()
    } else {
        s.subrange(ws_prefix(s), s.len() - ws_suffix(s))
    }
}

proof fn lemma_ws_prefix_at(s: Seq<char>, a: int)
    requires
        0 <= a <= s.len(),
        forall|j: int| 0 <= j < a ==> is_ws(s[j]),
        a < s.len() ==> !is_ws(s[a]),
    ensures
        ws_prefix(s) == a,
    decreases s.len(),
{
    if a == 0 {
    } else {
        assert(is_ws(s[0]));
        let d = s.drop_first();
        assert(forall|j: int| 0 <= j < a - 1 ==> d[j] == s[j + 1] && is_ws(s[j + 1]));
        lemma_ws_prefix_at(d, a - 1);
    }
}

proof fn lemma_ws_suffix_at(s: Seq<char>, b: int)
    requires
        0 <= b <= s.len(),
        forall|j: int| b <= j < s.len() ==> is_ws(s[j]),
        b > 0 ==> !is_ws(s[b - 1]),
    ensures
        ws_suffix(s) == s.len() - b,
    decreases s.len(),
{
    if b == s.len() {
    } else {
        assert(is_ws(s.last()));
        let d = s.drop_last();
        assert(forall|j: int| b <= j < d.len() ==> d[j] == s[j] && is_ws(s[j]));
        lemma_ws_suffix_at(d, b);
    }
}

/// A digit character.
pub open spec fn is_digit(c: char) -> bool {
    '0' <= c <= '9'
}

/// Value of a digit string, most significant first.
pub open spec fn digits_val(s: Seq<char>) -> int
    decreases s.len(),
{
    if s.len() == 0 {
        0
    } else {
        digits_val(s.drop_last()) * 10 + (s.last() as int - '0' as int)
    }
}

/// The digit part of a whole-number literal: everything after the sign.
pub open spec fn int_body(s: Seq<char>) -> Seq<char> {
    if s.len() > 0 && (s[0] == '+' || s[0] == '-') {
        s.drop_first()
    } else {
        s
    }
}

/// A whole-number literal: an optional sign followed by one or more
/// digits.
pub open spec fn is_int_literal(s: Seq<char>) -> bool {
    int_body(s).len() > 0 && forall|i: int|
        0 <= i < int_body(s).len() ==> is_digit(#[trigger] int_body(s)[i])
}

/// Value of a whole-number literal.
pub open spec fn int_literal_val(s: Seq<char>) -> int {
    if s.len() > 0 && s[0] == '-' {
        -digits_val(int_body(s))
    } else {
        digits_val(int_body(s))
    }
}

proof fn lemma_digits_val_step(s: Seq<char>, k: int)
    requires
        0 <= k < s.len(),
    ensures
        digits_val(s.subrange(0, k + 1)) == digits_val(s.subrange(0, k)) * 10 + (s[k] as int
            - '0' as int),
{
    let p = s.subrange(0, k + 1);
    assert(p.drop_last() =~= s.subrange(0, k));
    assert(p.last() == s[k]);
}

proof fn lemma_digits_val_grows(s: Seq<char>, k: int)
    requires
        0 <= k <= s.len(),
        forall|i: int| 0 <= i < s.len() ==> is_digit(#[trigger] s[i]),
    ensures
        digits_val(s) >= digits_val(s.subrange(0, k)),
        digits_val(s.subrange(0, k)) >= 0,
    decreases s.len() - k,
{
    if k == s.len() {
        assert(s.subrange(0, k) =~= s);
        lemma_digits_val_nonneg(s);
    } else {
        lemma_digits_val_step(s, k);
        lemma_digits_val_nonneg(s.subrange(0, k));
        assert(digits_val(s.subrange(0, k)) * 10 >= digits_val(s.subrange(0, k)))
            by (nonlinear_arith)
            requires
                digits_val(s.subrange(0, k)) >= 0,
        ;
        assert(is_digit(s[k]));
        lemma_digits_val_grows(s, k + 1);
    }
}

proof fn lemma_digits_val_nonneg(s: Seq<char>)
    requires
        forall|i: int| 0 <= i < s.len() ==> is_digit(#[trigger] s[i]),
    ensures
        digits_val(s) >= 0,
    decreases s.len(),
{
    if s.len() > 0 {
        let d = s.drop_last();
        assert(forall|i: int| 0 <= i < d.len() ==> is_digit(#[trigger] d[i]));
        lemma_digits_val_nonneg(d);
        assert(digits_val(d) * 10 >= 0) by (nonlinear_arith)
            requires
                digits_val(d) >= 0,
        ;
        assert(is_digit(s.last()));
    }
}

/// Strip leading and trailing whitespace.
pub fn trim_ws(s: &str) -> (r: String)
    ensures
        r@ == trim_spec(s@),
{
    let n = s.unicode_len();
    let mut a: usize = 0;
    while a < n && is_ws_char(s.get_char(a))
        invariant
            n == s@.len(),
            a <= n,
            forall|j: int| 0 <= j < a ==> is_ws(s@[j]),
        decreases n - a,
    {
        a += 1;
    }
    proof {
        lemma_ws_prefix_at(s@, a as int);
    }
    if a == n {
        let r = String::new();
        proof {
            assert(trim_spec(s@) =~= r@);
        }
        return r;
    }
    let mut b: usize = n;
    while b > a && is_ws_char(s.get_char(b - 1))
        invariant
            n == s@.len(),
            a <= b <= n,
            a < n,
            !is_ws(s@[a as int]),
            forall|j: int| b <= j < n ==> is_ws(s@[j]),
        decreases b,
    {
        b -= 1;
    }
    proof {
        assert(b > a);
        lemma_ws_suffix_at(s@, b as int);
    }
    let piece = s.substring_char(a, b);
    piece.to_owned()
}

/// Whether `c` is whitespace, matching `is_ws`.
pub fn is_ws_char(c: char) -> (r: bool)
    ensures
        r == is_ws(c),
{
    c == ' ' || c == '\t' || c == '\r' || c == '\n'
}

/// Read a whole number: an optional sign and digits, nothing else, with
/// the value within `i32`.  Anything else yields `None`.
pub fn parse_i32(s: &str) -> (r: Option<i32>)
    ensures
        r matches Some(v) ==> is_int_literal(s@) && int_literal_val(s@) == v,
        r is None ==> !is_int_literal(s@) || !(i32::MIN <= int_literal_val(s@) <= i32::MAX),
{
    let n = s.unicode_len();
    if n == 0 {
        return None;
    }
    let first = s.get_char(0);
    let neg = first == '-';
    let start: usize = if first == '-' || first == '+' {
        1
    } else {
        0
    };
    if start == n {
        return None;
    }
    let ghost body = int_body(s@);
    proof {
        assert(body =~= s@.subrange(start as int, n as int));
    }
    let mut acc: i64 = 0;
    let mut i: usize = start;
    while i < n
        invariant
            n == s@.len(),
            start <= i <= n,
            start <= 1,
            body == int_body(s@),
            body == s@.subrange(start as int, n as int),
            forall|j: int| start <= j < i ==> is_digit(#[trigger] s@[j]),
            acc == digits_val(s@.subrange(start as int, i as int)),
            0 <= acc <= 0x8000_0000,
        decreases n - i,
    {
        let c = s.get_char(i);
        if !('0' <= c && c <= '9') {
            proof {
                assert(int_body(s@)[i - start] == s@[i as int]);
                assert(!is_digit(int_body(s@)[i - start]));
            }
            return None;
        }
        let d = (c as u32) - 48;
        proof {
            assert(is_digit(s@[i as int]));
            assert(d == s@[i as int] as int - '0' as int);
            assert(0 <= d <= 9);
            lemma_digits_val_step(s@.subrange(start as int, n as int), i - start);
            assert(s@.subrange(start as int, n as int).subrange(0, i - start + 1)
                =~= s@.subrange(start as int, i + 1));
            assert(s@.subrange(start as int, n as int).subrange(0, i - start) =~= s@.subrange(
                start as int,
                i as int,
            ));
        }
        let next = acc * 10 + (d as i64);
        if next > 0x8000_0000 {
            proof {
                let whole = s@.subrange(start as int, n as int);
                if is_int_literal(s@) {
                    assert forall|j: int| 0 <= j < whole.len() implies is_digit(
                        #[trigger] whole[j],
                    ) by {
                        assert(whole[j] == body[j]);
                        assert(is_digit(body[j]));
                    }
                    lemma_digits_val_grows(whole, i - start + 1);
                    assert(whole.subrange(0, i - start + 1) =~= s@.subrange(start as int, i + 1));
                    assert(digits_val(whole) >= next > 0x8000_0000);
                    assert(digits_val(int_body(s@)) == digits_val(whole));
                    assert(int_literal_val(s@) == digits_val(int_body(s@)) || int_literal_val(s@)
                        == -digits_val(int_body(s@)));
                    assert(!(i32::MIN <= int_literal_val(s@) <= i32::MAX));
                }
            }
            return None;
        }
        acc = next;
        i += 1;
    }
    proof {
        assert(s@.subrange(start as int, i as int) =~= body);
        assert(forall|j: int| 0 <= j < body.len() ==> is_digit(#[trigger] body[j]));
        assert(is_int_literal(s@));
    }
    if neg {
        let v = -acc;
        if v < -0x8000_0000i64 {
            return None;
        }
        Some(v as i32)
    } else {
        if acc > 0x7FFF_FFFF {
            return None;
        }
        Some(acc as i32)
    }
}

/// Compare two strings character by character.
pub fn str_eq(a: &str, b: &str) -> (r: bool)
    ensures
        r == (a@ == b@),
{
    let n = a.unicode_len();
    if n != b.unicode_len() {
        return false;
    }
    let mut i: usize = 0;
    while i < n
        invariant
            n == a@.len(),
            n == b@.len(),
            i <= n,
            forall|j: int| 0 <= j < i ==> a@[j] == b@[j],
        decreases n - i,
    {
        if a.get_char(i) != b.get_char(i) {
            return false;
        }
        i += 1;
    }
    proof {
        assert(a@ =~= b@);
    }
    true
}

/// Whether a field parses as a face index: a whole number within `i32`
/// after trimming.
pub open spec fn spec_field_ok(s: Seq<char>) -> bool {
    &&& is_int_literal(trim_spec(s))
    &&& i32::MIN <= int_literal_val(trim_spec(s)) <= i32::MAX
}

/// The face index a field denotes: positive one-based indices shift down
/// to zero-based, zero and negative values pass through.
pub open spec fn spec_field_val(s: Seq<char>) -> int {
    let v = int_literal_val(trim_spec(s));
    if v > 0 {
        v - 1
    } else {
        v
    }
}

/// Whether field `k` of a face bundle is present and non-empty.
pub open spec fn field_given(fs: Seq<Seq<char>>, k: int) -> bool {
    fs.len() > k && fs[k].len() > 0
}

/// Every given field of a face bundle parses.
pub open spec fn bundle_fields_ok(fs: Seq<Seq<char>>) -> bool {
    &&& field_given(fs, 0) ==> spec_field_ok(fs[0])
    &&& field_given(fs, 1) ==> spec_field_ok(fs[1])
    &&& field_given(fs, 2) ==> spec_field_ok(fs[2])
}

/// The bundle a face field list denotes; missing or empty fields stay
/// zero.
pub open spec fn spec_bundle_of(fs: Seq<Seq<char>>) -> IndexBundle {
    IndexBundle {
        pos_idx: if field_given(fs, 0) {
            spec_field_val(fs[0]) as i32
        } else {
            0
        },
        tex_idx: if field_given(fs, 1) {
            spec_field_val(fs[1]) as i32
        } else {
            0
        },
        nor_idx: if field_given(fs, 2) {
            spec_field_val(fs[2]) as i32
        } else {
            0
        },
    }
}

impl IndexBundle {
    /// Read one face index: trim the field, parse the whole number, and
    /// shift positive one-based values down by one.
    pub fn parse(field: &str) -> (r: Result<i32, ResourceParseError>)
        ensures
            r matches Ok(v) ==> spec_field_ok(field@) && v == spec_field_val(field@),
            r is Err ==> !spec_field_ok(field@),
            r matches Err(e) ==> e matches ResourceParseError::ParseIntError { line } && line@
                == field@,
    {
        let t = trim_ws(field);
        match parse_i32(t.as_str()) {
            Option::Some(idx) => Ok(
                if idx > 0 {
                    idx - 1
                } else {
                    idx
                },
            ),
            Option::None => Err(ResourceParseError::ParseIntError { line: field.to_owned() }),
        }
    }

    /// Assemble a bundle from the slash-separated fields of one face
    /// statement; fields that are absent or empty stay zero.
    pub fn new(input: &Vec<&str>) -> (r: Result<IndexBundle, ResourceParseError>)
        ensures
            ({
                let fs = input@.map_values(|t: &str| t@);
                &&& (r is Ok <==> bundle_fields_ok(fs))
                &&& (r matches Ok(ib) ==> ib == spec_bundle_of(fs))
                &&& (r matches Err(e) ==> e matches ResourceParseError::ParseIntError { line }
                    && ((field_given(fs, 0) && !spec_field_ok(fs[0]) && line@ == fs[0]) || (
                    field_given(fs, 1) && !spec_field_ok(fs[1]) && line@ == fs[1] && (
                    field_given(fs, 0) ==> spec_field_ok(fs[0]))) || (field_given(fs, 2)
                    && !spec_field_ok(fs[2]) && line@ == fs[2] && (field_given(fs, 0)
                    ==> spec_field_ok(fs[0])) && (field_given(fs, 1) ==> spec_field_ok(fs[1])))))
            }),
    {
        let ghost fs = input@.map_values(|t: &str| t@);
        let mut ib = IndexBundle::new_default();
        if input.len() > 0 && !input[0].is_empty() {
            proof {
                assert(fs[0] == input@[0]@);
            }
            ib.pos_idx = IndexBundle::parse(input[0])?;
        }
        if input.len() > 1 && !input[1].is_empty() {
            proof {
                assert(fs[1] == input@[1]@);
            }
            ib.tex_idx = IndexBundle::parse(input[1])?;
        }
        if input.len() > 2 && !input[2].is_empty() {
            proof {
                assert(fs[2] == input@[2]@);
            }
            ib.nor_idx = IndexBundle::parse(input[2])?;
        }
        Ok(ib)
    }
}

/// Line-level parsing of model and material-library sources.
pub struct ResourceParser {}

impl ResourceParser {
    /// The space-separated fields of a line, empties dropped.
    pub fn split_line(line: &str) -> (r: Vec<String>)
        ensures
            r@.map_values(|t: String| t@) == tokens_of(line@),
    {
        let n = line.unicode_len();
        let mut r: Vec<String> = Vec::new();
        let mut tok_start: usize = 0;
        let mut has_tok = false;
        let mut i: usize = 0;
        proof {
            assert(r@.map_values(|t: String| t@) + tokens_of(line@) =~= tokens_of(line@));
        }
        while i < n
            invariant
                n == line@.len(),
                i <= n,
                has_tok ==> tok_start < i,
                has_tok ==> forall|j: int| tok_start <= j < i ==> !is_sep(line@[j]),
                tokens_of(line@) == r@.map_values(|t: String| t@) + tokens_from(
                    line@,
                    i as int,
                    if has_tok {
                        line@.subrange(tok_start as int, i as int)
                    } else {
                        Seq::empty()
                    },
                ),
            decreases n - i,
        {
            let ghost cur = if has_tok {
                line@.subrange(tok_start as int, i as int)
            } else {
                Seq::<char>::empty()
            };
            let c = line.get_char(i);
            if c == ' ' {
                if has_tok {
                    let tok = line.substring_char(tok_start, i).to_owned();
                    proof {
                        assert(tokens_from(line@, i as int, cur) =~= seq![cur] + tokens_from(
                            line@,
                            i + 1,
                            Seq::empty(),
                        ));
                        assert((r@.push(tok)).map_values(|t: String| t@) =~= r@.map_values(
                            |t: String| t@,
                        ).push(tok@));
                        assert(r@.map_values(|t: String| t@).push(tok@) + tokens_from(
                            line@,
                            i + 1,
                            Seq::empty(),
                        ) =~= r@.map_values(|t: String| t@) + tokens_from(line@, i as int, cur));
                    }
                    r.push(tok);
                    has_tok = false;
                }
            } else {
                if !has_tok {
                    tok_start = i;
                    has_tok = true;
                }
                proof {
                    assert(cur.push(line@[i as int]) =~= line@.subrange(tok_start as int, i + 1));
                }
            }
            i += 1;
        }
        if has_tok {
            let ghost cur = line@.subrange(tok_start as int, n as int);
            let tok = line.substring_char(tok_start, n).to_owned();
            proof {
                assert(tokens_from(line@, n as int, cur) =~= seq![cur]);
                assert((r@.push(tok)).map_values(|t: String| t@) =~= r@.map_values(
                    |t: String| t@,
                ).push(tok@));
                assert(r@.map_values(|t: String| t@).push(tok@) =~= r@.map_values(|t: String| t@)
                    + tokens_from(line@, n as int, cur));
            }
            r.push(tok);
        }
        proof {
            assert(r@.map_values(|t: String| t@) + tokens_from(line@, n as int, Seq::empty())
                =~= r@.map_values(|t: String| t@));
        }
        r
    }

    /// The slash-separated pieces of one face field; empties are kept.
    pub fn split_fields(field: &str) -> (r: Vec<String>)
        ensures
            r@.map_values(|t: String| t@) == fields_of(field@),
    {
        let n = field.unicode_len();
        let mut r: Vec<String> = Vec::new();
        let mut start: usize = 0;
        let mut i: usize = 0;
        proof {
            assert(field@.subrange(0, 0) =~= Seq::<char>::empty());
            assert(r@.map_values(|t: String| t@) + fields_of(field@) =~= fields_of(field@));
        }
        while i < n
            invariant
                n == field@.len(),
                start <= i <= n,
                fields_of(field@) == r@.map_values(|t: String| t@) + fields_from(
                    field@,
                    i as int,
                    field@.subrange(start as int, i as int),
                ),
            decreases n - i,
        {
            let ghost cur = field@.subrange(start as int, i as int);
            let c = field.get_char(i);
            if c == '/' || c == '\\' {
                let piece = field.substring_char(start, i).to_owned();
                proof {
                    assert(fields_from(field@, i as int, cur) =~= seq![cur] + fields_from(
                        field@,
                        i + 1,
                        Seq::empty(),
                    ));
                    assert((r@.push(piece)).map_values(|t: String| t@) =~= r@.map_values(
                        |t: String| t@,
                    ).push(piece@));
                    assert(r@.map_values(|t: String| t@).push(piece@) + fields_from(
                        field@,
                        i + 1,
                        Seq::empty(),
                    ) =~= r@.map_values(|t: String| t@) + fields_from(field@, i as int, cur));
                    assert(Seq::<char>::empty() =~= field@.subrange(i + 1, i + 1));
                }
                r.push(piece);
                start = i + 1;
            } else {
                proof {
                    assert(cur.push(field@[i as int]) =~= field@.subrange(start as int, i + 1));
                }
            }
            i += 1;
        }
        let ghost cur = field@.subrange(start as int, n as int);
        let piece = field.substring_char(start, n).to_owned();
        proof {
            assert(fields_from(field@, n as int, cur) =~= seq![cur]);
            assert((r@.push(piece)).map_values(|t: String| t@) =~= r@.map_values(
                |t: String| t@,
            ).push(piece@));
            assert(r@.map_values(|t: String| t@).push(piece@) =~= r@.map_values(|t: String| t@)
                + fields_from(field@, n as int, cur));
        }
        r.push(piece);
        r
    }

    /// Split a face line into fields and each field into its
    /// slash-separated pieces.
    pub fn split_index_line(line: &str) -> (r: Vec<Vec<String>>)
        ensures
            r@.len() == tokens_of(line@).len(),
            forall|i: int|
                0 <= i < r@.len() ==> (#[trigger] r@[i])@.map_values(|t: String| t@) == fields_of(
                    tokens_of(line@)[i],
                ),
    {
        let toks = Self::split_line(line);
        let n = toks.len();
        let mut r: Vec<Vec<String>> = Vec::new();
        let mut i: usize = 0;
        while i < n
            invariant
                n == toks@.len(),
                toks@.map_values(|t: String| t@) == tokens_of(line@),
                i <= n,
                r@.len() == i,
                forall|k: int|
                    0 <= k < i ==> (#[trigger] r@[k])@.map_values(|t: String| t@) == fields_of(
                        tokens_of(line@)[k],
                    ),
            decreases n - i,
        {
            proof {
                assert(toks@.map_values(|t: String| t@)[i as int] == toks@[i as int]@);
            }
            r.push(Self::split_fields(toks[i].as_str()));
            i += 1;
        }
        r
    }

    /// Read a two-field line (a keyword and one value): the value, with
    /// surrounding whitespace stripped.
    pub fn parse_string_line(line: &str) -> (r: Result<String, ResourceParseError>)
        ensures
            r matches Ok(v) ==> tokens_of(line@).len() == 2 && v@ == trim_spec(
                tokens_of(line@)[1],
            ),
            r is Err ==> tokens_of(line@).len() != 2,
            r matches Err(e) ==> e matches ResourceParseError::InvalidLineArgCount {
                count,
                line: l,
            } && count == tokens_of(line@).len() && l@ == line@,
    {
        let values = Self::split_line(line);
        let l = values.len();
        if l != 2 {
            proof {
                assert(tokens_of(line@).len() == values@.map_values(|t: String| t@).len());
            }
            Err(ResourceParseError::InvalidLineArgCount { count: l, line: line.to_owned() })
        } else {
            proof {
                assert(values@.map_values(|t: String| t@)[1] == values@[1]@);
            }
            Ok(trim_ws(values[1].as_str()))
        }
    }

    /// Read a face line: a keyword followed by at least three fields, each
    /// of up to three slash-separated indices, fan-triangulated around the
    /// first field.
    pub fn parse_index_line(line: &str) -> (r: Result<
        Vec<(IndexBundle, IndexBundle, IndexBundle)>,
        ResourceParseError,
    >)
        ensures
            ({
                let toks = tokens_of(line@);
                &&& (r matches Ok(v) ==> toks.len() >= 4 && v@.len() == toks.len() - 3 && forall|
                    i: int,
                |
                    0 <= i < v@.len() ==> #[trigger] v@[i] == (
                        spec_bundle_of(fields_of(toks[1])),
                        spec_bundle_of(fields_of(toks[i + 2])),
                        spec_bundle_of(fields_of(toks[i + 3])),
                    ))
                &&& (r is Err ==> toks.len() < 4 || exists|t: int|
                    1 <= t < toks.len() && !bundle_fields_ok(fields_of(#[trigger] toks[t])))
            }),
    {
        let ghost toks = tokens_of(line@);
        let indices = Self::split_line(line);
        let l = indices.len();
        proof {
            assert(toks.len() == indices@.map_values(|t: String| t@).len());
        }
        if l < 4 {
            return Err(
                ResourceParseError::InvalidLineArgCount { count: l, line: line.to_owned() },
            );
        }
        let num_tris = l - 3;
        let mut bundles: Vec<IndexBundle> = Vec::new();
        let mut t: usize = 1;
        while t < l
            invariant
                toks == tokens_of(line@),
                l == indices@.len(),
                toks.len() == l,
                forall|k: int| 0 <= k < l ==> toks[k] == (#[trigger] indices@[k])@,
                1 <= t <= l,
                bundles@.len() == t - 1,
                forall|k: int|
                    0 <= k < t - 1 ==> #[trigger] bundles@[k] == spec_bundle_of(
                        fields_of(toks[k + 1]),
                    ),
            decreases l - t,
        {
            let fields_vec = Self::split_fields(indices[t].as_str());
            let m = fields_vec.len();
            let mut refs: Vec<&str> = Vec::new();
            let mut j: usize = 0;
            while j < m
                invariant
                    m == fields_vec@.len(),
                    j <= m,
                    refs@.len() == j,
                    forall|k: int| 0 <= k < j ==> (#[trigger] refs@[k])@ == fields_vec@[k]@,
                decreases m - j,
            {
                refs.push(fields_vec[j].as_str());
                j += 1;
            }
            proof {
                assert(refs@.map_values(|x: &str| x@) =~= fields_vec@.map_values(
                    |x: String| x@,
                ));
                assert(fields_vec@.map_values(|x: String| x@) == fields_of(toks[t as int]));
            }
            let ib = match IndexBundle::new(&refs) {
                Result::Ok(ib) => ib,
                Result::Err(e) => {
                    proof {
                        assert(!bundle_fields_ok(fields_of(toks[t as int])));
                    }
                    return Err(e);
                },
            };
            proof {
                assert(refs@.map_values(|x: &str| x@) == fields_of(toks[t as int]));
                assert(bundle_fields_ok(fields_of(toks[t as int])));
                assert(ib == spec_bundle_of(fields_of(toks[t as int])));
            }
            let ghost pre_bundles = bundles@;
            bundles.push(ib);
            proof {
                assert forall|k: int|
                    0 <= k < t implies #[trigger] bundles@[k] == spec_bundle_of(
                    fields_of(toks[k + 1]),
                ) by {
                    if k < t - 1 {
                        assert(bundles@[k] == pre_bundles[k]);
                    } else {
                        assert(bundles@[k] == ib);
                    }
                }
            }
            t += 1;
        }
        let mut out: Vec<(IndexBundle, IndexBundle, IndexBundle)> = Vec::new();
        let b0 = bundles[0];
        let mut i: usize = 0;
        while i < num_tris
            invariant
                toks == tokens_of(line@),
                toks.len() == l,
                4 <= l,
                num_tris == l - 3,
                bundles@.len() == l - 1,
                b0 == bundles@[0],
                forall|k: int|
                    0 <= k < l - 1 ==> #[trigger] bundles@[k] == spec_bundle_of(
                        fields_of(toks[k + 1]),
                    ),
                i <= num_tris,
                out@.len() == i,
                forall|k: int|
                    0 <= k < i ==> #[trigger] out@[k] == (b0, bundles@[k + 1], bundles@[k + 2]),
            decreases num_tris - i,
        {
            out.push((b0, bundles[i + 1], bundles[i + 2]));
            i += 1;
        }
        Ok(out)
    }
}

} // verus!
