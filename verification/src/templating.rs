use vstd::prelude::*;

use crate::jsonval::{jv_get, JVal, JsonValue};
use crate::strutil::{str_eq, trim, trim_spec};

verus! {

/// Switches of template rendering.
#[derive(Clone, Copy, Debug, PartialEq, Eq, Structural)]
pub struct TemplateOptions {
    pub allow_pointer: bool,
}

impl Default for TemplateOptions {
    fn default() -> (r: TemplateOptions)
        ensures
            !r.allow_pointer,
    {
        TemplateOptions { allow_pointer: false }
    }
}

/// One step of a template path: an object key or an array index.
#[derive(Debug)]
pub enum PathSegment {
    Key(String),
    Index(usize),
}

/// The abstract contents of a path segment.
pub enum SegView {
    Key(Seq<char>),
    Index(int),
}

/// View of one segment.
pub open spec fn seg_view(s: PathSegment) -> SegView {
    match s {
        PathSegment::Key(k) => SegView::Key(k@),
        PathSegment::Index(i) => SegView::Index(i as int),
    }
}

/// Views of a segment list.
pub open spec fn segs_view(s: Seq<PathSegment>) -> Seq<SegView> {
    Seq::new(
        s.len(),
        |i: int|
            if 0 <= i < s.len() {
                seg_view(s[i])
            } else {
                SegView::Index(0)
            },
    )
}

/// First position at or past `pos` holding '.', '[' or ']', else the length.
pub open spec fn ident_end(s: Seq<char>, pos: int) -> int
    decreases s.len() - pos,
{
    if pos < 0 || pos >= s.len() {
        s.len() as int
    } else if s[pos] == '.' || s[pos] == '[' || s[pos] == ']' {
        pos
    } else {
        ident_end(s, pos + 1)
    }
}

/// An identifier read at `pos`: the trimmed run up to the next delimiter;
/// blank runs fail.
pub open spec fn spec_parse_identifier(s: Seq<char>, pos: int) -> Option<(Seq<char>, int)> {
    let e = ident_end(s, pos);
    let id = trim_spec(s.subrange(pos, e));
    if id.len() == 0 {
        None
    } else {
        Some((id, e))
    }
}

/// First position at or past `pos` holding the quote, else the length.
pub open spec fn quote_end(s: Seq<char>, pos: int, q: char) -> int
    decreases s.len() - pos,
{
    if pos < 0 || pos >= s.len() {
        s.len() as int
    } else if s[pos] == q {
        pos
    } else {
        quote_end(s, pos + 1, q)
    }
}

/// Whitespace skipped, a ']' consumed: the position after it, if the next
/// non-whitespace character is indeed ']'.
pub open spec fn spec_bracket_end(s: Seq<char>, pos: int) -> Option<int>
    decreases s.len() - pos,
{
    if pos < 0 || pos >= s.len() {
        None
    } else if s[pos] == ']' {
        Some(pos + 1)
    } else if crate::strutil::is_unicode_space(s[pos]) {
        spec_bracket_end(s, pos + 1)
    } else {
        None
    }
}

/// Decimal value of a digit run; anything past usize overflows to `None`.
pub open spec fn dec_value(s: Seq<char>) -> Option<int>
    decreases s.len(),
{
    if s.len() == 0 {
        None
    } else {
        let d = digit_of(s[s.len() - 1]);
        if s.len() == 1 {
            Some(d)
        } else {
            match dec_value(s.drop_last()) {
                Some(hi) => Some(hi * 10 + d),
                None => None,
            }
        }
    }
}

/// Numeric value of a decimal digit character.
pub open spec fn digit_of(c: char) -> int {
    (c as u32) as int - ('0' as u32) as int
}

/// Whether a character is a decimal digit.
pub open spec fn is_digit(c: char) -> bool {
    '0' as u32 <= c as u32 && c as u32 <= '9' as u32
}

/// First position at or past `pos` holding a non-digit, else the length.
pub open spec fn digits_end(s: Seq<char>, pos: int) -> int
    decreases s.len() - pos,
{
    if pos < 0 || pos >= s.len() {
        s.len() as int
    } else if is_digit(s[pos]) {
        digits_end(s, pos + 1)
    } else {
        pos
    }
}

/// A bracket segment read just after '[': a quoted key, a numeric index,
/// or a bare identifier, each closed by ']'.
pub open spec fn spec_parse_bracket(s: Seq<char>, pos: int) -> Option<(SegView, int)> {
    if pos < 0 || pos >= s.len() {
        None
    } else if s[pos] == '"' || s[pos] == '\'' {
        let q = s[pos];
        let e = quote_end(s, pos + 1, q);
        let buf = s.subrange(pos + 1, e);
        let after = if e < s.len() {
            e + 1
        } else {
            e
        };
        match spec_bracket_end(s, after) {
            Some(p2) => Some((SegView::Key(buf), p2)),
            None => None,
        }
    } else if is_digit(s[pos]) {
        let e = digits_end(s, pos);
        match spec_bracket_end(s, e) {
            Some(p2) => match dec_value(s.subrange(pos, e)) {
                Some(v) => if v <= usize::MAX as int {
                    Some((SegView::Index(v), p2))
                } else {
                    None
                },
                None => None,
            },
            None => None,
        }
    } else {
        match spec_parse_identifier(s, pos) {
            Some((id, e)) => match spec_bracket_end(s, e) {
                Some(p2) => Some((SegView::Key(id), p2)),
                None => None,
            },
            None => None,
        }
    }
}

/// The segments of a path expression from `pos` on: dots are separators,
/// brackets hold quoted keys or indices, anything else is an identifier.
pub open spec fn spec_parse_segments(s: Seq<char>, pos: int) -> Option<Seq<SegView>>
    decreases s.len() - pos,
{
    if pos < 0 || pos >= s.len() {
        Some(Seq::empty())
    } else if s[pos] == '.' {
        spec_parse_segments(s, pos + 1)
    } else if s[pos] == '[' {
        match spec_parse_bracket(s, pos + 1) {
            Some((seg, p2)) => if pos < p2 <= s.len() {
                match spec_parse_segments(s, p2) {
                    Some(rest) => Some(seq![seg] + rest),
                    None => None,
                }
            } else {
                None
            },
            None => None,
        }
    } else {
        match spec_parse_identifier(s, pos) {
            Some((id, e)) => if pos < e <= s.len() {
                match spec_parse_segments(s, e) {
                    Some(rest) => Some(seq![SegView::Key(id)] + rest),
                    None => None,
                }
            } else {
                None
            },
            None => None,
        }
    }
}

/// What a whole path expression parses to: its segments, with a leading
/// `this` dropped; an empty list fails.
pub open spec fn spec_parse_path(expr: Seq<char>) -> Option<Seq<SegView>> {
    match spec_parse_segments(trim_spec(expr), 0) {
        Some(segs) => if segs.len() == 0 {
            None
        } else if segs[0] == SegView::Key("this"@) {
            Some(segs.drop_first())
        } else {
            Some(segs)
        },
        None => None,
    }
}

/// The value a segment path reaches in a context tree.
pub open spec fn spec_resolve_path(root: JVal, segs: Seq<SegView>) -> Option<JVal>
    decreases segs.len(),
{
    if segs.len() == 0 {
        Some(root)
    } else {
        match (segs[0], root) {
            (SegView::Key(k), JVal::Obj(_)) => match jv_get(root, k) {
                Some(next) => spec_resolve_path(next, segs.drop_first()),
                None => None,
            },
            (SegView::Index(i), JVal::Arr(items)) => if 0 <= i < items.len() {
                spec_resolve_path(items[i], segs.drop_first())
            } else {
                None
            },
            _ => None,
        }
    }
}

proof fn lemma_ident_end_window(s: Seq<char>, pos: int, i: int)
    requires
        0 <= pos <= i <= s.len(),
        forall|j: int| pos <= j < i ==> s[j] != '.' && s[j] != '[' && s[j] != ']',
        i < s.len() ==> (s[i] == '.' || s[i] == '[' || s[i] == ']'),
    ensures
        ident_end(s, pos) == i,
    decreases i - pos,
{
    if pos < i {
        lemma_ident_end_window(s, pos + 1, i);
    }
}

proof fn lemma_quote_end_window(s: Seq<char>, pos: int, q: char, i: int)
    requires
        0 <= pos <= i <= s.len(),
        forall|j: int| pos <= j < i ==> s[j] != q,
        i < s.len() ==> s[i] == q,
    ensures
        quote_end(s, pos, q) == i,
    decreases i - pos,
{
    if pos < i {
        lemma_quote_end_window(s, pos + 1, q, i);
    }
}

proof fn lemma_digits_end_window(s: Seq<char>, pos: int, i: int)
    requires
        0 <= pos <= i <= s.len(),
        forall|j: int| pos <= j < i ==> is_digit(s[j]),
        i < s.len() ==> !is_digit(s[i]),
    ensures
        digits_end(s, pos) == i,
    decreases i - pos,
{
    if pos < i {
        lemma_digits_end_window(s, pos + 1, i);
    }
}

proof fn lemma_bracket_end_step(s: Seq<char>, pos: int, i: int)
    requires
        0 <= pos <= i <= s.len(),
        forall|j: int|
            pos <= j < i ==> s[j] != ']' && crate::strutil::is_unicode_space(#[trigger] s[j]),
    ensures
        spec_bracket_end(s, pos) == spec_bracket_end(s, i),
    decreases i - pos,
{
    if pos < i {
        lemma_bracket_end_step(s, pos + 1, i);
    }
}

/// Reads a path identifier starting at `pos`: everything up to the next
/// delimiter, trimmed; a blank run fails.
pub fn parse_identifier(s: &str, pos: usize) -> (r: Option<(String, usize)>)
    requires
        pos <= s@.len(),
    ensures
        match r {
            Some(p) => spec_parse_identifier(s@, pos as int) == Some((p.0@, p.1 as int)) && pos
                <= p.1 <= s@.len(),
            None => spec_parse_identifier(s@, pos as int) is None,
        },
{
    let n = s.unicode_len();
    let mut i: usize = pos;
    while i < n && s.get_char(i) != '.' && s.get_char(i) != '[' && s.get_char(i) != ']'
        invariant
            pos <= i <= n,
            n == s@.len(),
            forall|j: int| pos <= j < i ==> s@[j] != '.' && s@[j] != '[' && s@[j] != ']',
        decreases n - i,
    {
        i += 1;
    }
    proof {
        lemma_ident_end_window(s@, pos as int, i as int);
    }
    let raw = s.substring_char(pos, i);
    proof {
        assert(raw@ =~= s@.subrange(pos as int, i as int));
    }
    let id = trim(raw);
    if id.as_str().unicode_len() == 0 {
        None
    } else {
        Some((id, i))
    }
}

/// Skips whitespace and consumes the closing ']'.
pub fn consume_bracket_end(s: &str, pos: usize) -> (r: Option<usize>)
    requires
        pos <= s@.len(),
    ensures
        match r {
            Some(p) => spec_bracket_end(s@, pos as int) == Some(p as int) && pos < p <= s@.len(),
            None => spec_bracket_end(s@, pos as int) is None,
        },
{
    let n = s.unicode_len();
    let mut i: usize = pos;
    while i < n && s.get_char(i) != ']' && s.get_char(i).is_whitespace()
        invariant
            pos <= i <= n,
            n == s@.len(),
            forall|j: int|
                pos <= j < i ==> s@[j] != ']' && crate::strutil::is_unicode_space(#[trigger] s@[j]),
        decreases n - i,
    {
        i += 1;
    }
    proof {
        lemma_bracket_end_step(s@, pos as int, i as int);
    }
    if i < n && s.get_char(i) == ']' {
        Some(i + 1)
    } else {
        None
    }
}

proof fn lemma_dec_value_bounds(s: Seq<char>)
    requires
        s.len() > 0,
        forall|j: int| 0 <= j < s.len() ==> is_digit(#[trigger] s[j]),
    ensures
        dec_value(s) matches Some(v) && v >= 0,
    decreases s.len(),
{
    if s.len() > 1 {
        assert(forall|j: int|
            0 <= j < s.drop_last().len() ==> is_digit(#[trigger] s.drop_last()[j]));
        lemma_dec_value_bounds(s.drop_last());
    }
}

/// Reads a bracketed path segment just after '[': a quoted key, a decimal
/// index, or a bare identifier, closed by ']'. An index past `usize` fails.
pub fn parse_bracket_segment(s: &str, pos: usize) -> (r: Option<(PathSegment, usize)>)
    requires
        pos <= s@.len(),
    ensures
        match r {
            Some(p) => spec_parse_bracket(s@, pos as int) == Some((seg_view(p.0), p.1 as int))
                && pos < p.1 <= s@.len(),
            None => spec_parse_bracket(s@, pos as int) is None,
        },
{
    let n = s.unicode_len();
    if pos >= n {
        return None;
    }
    let c = s.get_char(pos);
    if c == '"' || c == '\'' {
        let mut i: usize = pos + 1;
        while i < n && s.get_char(i) != c
            invariant
                pos + 1 <= i <= n,
                n == s@.len(),
                c == s@[pos as int],
                forall|j: int| pos + 1 <= j < i ==> s@[j] != c,
            decreases n - i,
        {
            i += 1;
        }
        proof {
            lemma_quote_end_window(s@, pos + 1, c, i as int);
        }
        let buf = s.substring_char(pos + 1, i);
        proof {
            assert(buf@ =~= s@.subrange(pos + 1, i as int));
        }
        let after = if i < n {
            i + 1
        } else {
            i
        };
        match consume_bracket_end(s, after) {
            Some(p2) => Some((PathSegment::Key(buf.to_owned()), p2)),
            None => None,
        }
    } else if '0' <= c && c <= '9' {
        let mut i: usize = pos;
        while i < n && '0' <= s.get_char(i) && s.get_char(i) <= '9'
            invariant
                pos <= i <= n,
                n == s@.len(),
                forall|j: int| pos <= j < i ==> is_digit(#[trigger] s@[j]),
            decreases n - i,
        {
            i += 1;
        }
        proof {
            lemma_digits_end_window(s@, pos as int, i as int);
        }
        let p2 = match consume_bracket_end(s, i) {
            Some(p2) => p2,
            None => {
                return None;
            },
        };
        // the run's decimal value, watching for overflow
        let ghost run = s@.subrange(pos as int, i as int);
        let mut acc: usize = 0;
        let mut over = false;
        let mut k: usize = pos;
        proof {
            assert(run.len() > 0);
            lemma_dec_value_bounds(run);
        }
        while k < i
            invariant
                pos <= k <= i <= n,
                n == s@.len(),
                run == s@.subrange(pos as int, i as int),
                forall|j: int| pos <= j < i ==> is_digit(#[trigger] s@[j]),
                k > pos ==> (match dec_value(run.take(k - pos)) {
                    Some(v) => (!over ==> acc as int == v) && (over ==> v > usize::MAX),
                    None => false,
                }),
                k == pos ==> acc == 0 && !over,
            decreases i - k,
        {
            let ghost prefix = run.take(k - pos);
            let c2 = s.get_char(k);
            let d: usize = (c2 as u32 as usize) - ('0' as u32 as usize);
            proof {
                assert(run[k - pos] == s@[k as int]);
                assert(run.take(k - pos + 1).drop_last() =~= prefix);
                assert(run.take(k - pos + 1)[k - pos] == run[k - pos]);
                if k > pos {
                    lemma_dec_value_bounds(prefix);
                }
            }
            if over {
                over = true;
                proof {
                    let ghost v0 = dec_value(prefix)->0;
                    assert(dec_value(run.take(k - pos + 1)) == Some(v0 * 10 + digit_of(
                        run[k - pos],
                    )));
                    assert(v0 * 10 + digit_of(run[k - pos]) > usize::MAX) by (nonlinear_arith)
                        requires
                            v0 > usize::MAX,
                            digit_of(run[k - pos]) >= 0,
                    ;
                }
            } else if acc > (usize::MAX - d) / 10 {
                over = true;
                proof {
                    if k == pos {
                        assert(acc == 0);
                        assert(d <= 9);
                        assert(false);
                    }
                    let ghost v0 = dec_value(prefix)->0;
                    assert(v0 == acc as int);
                    assert(dec_value(run.take(k - pos + 1)) == Some(v0 * 10 + digit_of(
                        run[k - pos],
                    )));
                    assert(digit_of(run[k - pos]) == d as int);
                    assert(v0 * 10 + d as int > usize::MAX) by (nonlinear_arith)
                        requires
                            v0 >= 0,
                            d as int >= 0,
                            d <= 9,
                            v0 > (usize::MAX as int - d as int) / 10,
                    ;
                }
            } else {
                proof {
                    assert(acc * 10 + d <= usize::MAX) by (nonlinear_arith)
                        requires
                            acc as int >= 0,
                            0 <= d as int <= 9,
                            acc as int <= (usize::MAX as int - d as int) / 10,
                    ;
                    if k > pos {
                        let ghost v0 = dec_value(prefix)->0;
                        assert(v0 == acc as int);
                        assert(dec_value(run.take(k - pos + 1)) == Some(v0 * 10 + digit_of(
                            run[k - pos],
                        )));
                    } else {
                        assert(run.take(1).len() == 1);
                        assert(dec_value(run.take(1)) == Some(digit_of(run[0])));
                    }
                    assert(digit_of(run[k - pos]) == d as int);
                }
                acc = acc * 10 + d;
            }
            k += 1;
        }
        proof {
            assert(run.take(i - pos) =~= run);
        }
        if over {
            None
        } else {
            Some((PathSegment::Index(acc), p2))
        }
    } else {
        match parse_identifier(s, pos) {
            Some((id, e)) => match consume_bracket_end(s, e) {
                Some(p2) => Some((PathSegment::Key(id), p2)),
                None => None,
            },
            None => None,
        }
    }
}

/// Parses a whole path expression into segments; a leading `this` segment
/// is dropped, and an expression with no segments fails.
pub fn parse_path_expression(expr: &str) -> (r: Option<Vec<PathSegment>>)
    ensures
        match r {
            Some(v) => spec_parse_path(expr@) == Some(segs_view(v@)),
            None => spec_parse_path(expr@) is None,
        },
{
    let t = trim(expr);
    let n = t.as_str().unicode_len();
    let mut out: Vec<PathSegment> = Vec::new();
    let mut pos: usize = 0;
    proof {
        assert(segs_view(out@) =~= Seq::<SegView>::empty());
        assert(Seq::<SegView>::empty() + spec_parse_segments(t@, 0)->0 =~= spec_parse_segments(
            t@,
            0,
        )->0);
    }
    while pos < n
        invariant
            n == t@.len(),
            pos <= n,
            t@ == trim_spec(expr@),
            match spec_parse_segments(t@, pos as int) {
                Some(rest) => spec_parse_segments(t@, 0) == Some(segs_view(out@) + rest),
                None => spec_parse_segments(t@, 0) is None,
            },
        decreases n - pos,
    {
        let c = t.as_str().get_char(pos);
        if c == '.' {
            pos += 1;
        } else if c == '[' {
            match parse_bracket_segment(t.as_str(), pos + 1) {
                Some((seg, p2)) => {
                    let ghost old_out = out@;
                    let ghost sv = seg_view(seg);
                    out.push(seg);
                    proof {
                        assert(segs_view(out@) =~= segs_view(old_out).push(sv));
                        let ghost rest2 = spec_parse_segments(t@, p2 as int);
                        if rest2 is Some {
                            assert(seq![sv] + rest2->0 =~= Seq::<SegView>::empty().push(sv)
                                + rest2->0);
                            assert(segs_view(old_out) + (seq![sv] + rest2->0) =~= segs_view(out@)
                                + rest2->0);
                        }
                    }
                    pos = p2;
                },
                None => {
                    return None;
                },
            }
        } else {
            match parse_identifier(t.as_str(), pos) {
                Some((id, e)) => {
                    if e <= pos {
                        return None;
                    }
                    let ghost old_out = out@;
                    let ghost sv = SegView::Key(id@);
                    out.push(PathSegment::Key(id));
                    proof {
                        assert(segs_view(out@) =~= segs_view(old_out).push(sv));
                        let ghost rest2 = spec_parse_segments(t@, e as int);
                        if rest2 is Some {
                            assert(segs_view(old_out) + (seq![sv] + rest2->0) =~= segs_view(out@)
                                + rest2->0);
                        }
                    }
                    pos = e;
                },
                None => {
                    return None;
                },
            }
        }
    }
    proof {
        assert(spec_parse_segments(t@, n as int) == Some(Seq::<SegView>::empty()));
        assert(segs_view(out@) + Seq::<SegView>::empty() =~= segs_view(out@));
    }
    if out.len() == 0 {
        return None;
    }
    let drop_head = match &out[0] {
        PathSegment::Key(k) => str_eq(k.as_str(), "this"),
        PathSegment::Index(_) => false,
    };
    if drop_head {
        let _ = out.remove(0);
        proof {
            assert(segs_view(out@) =~= segs_view(out@));
        }
    }
    let ghost whole = spec_parse_segments(t@, 0)->0;
    proof {
        if drop_head {
            assert(segs_view(out@) =~= whole.drop_first());
        }
    }
    Some(out)
}

/// Walks a parsed path through a context value: keys step into objects,
/// indices into arrays; any mismatch loses the value.
pub fn resolve_path<'a>(root: &'a JsonValue, path: &Vec<PathSegment>) -> (r: Option<
    &'a JsonValue,
>)
    ensures
        match r {
            Some(v) => spec_resolve_path(root@, segs_view(path@)) == Some(v@),
            None => spec_resolve_path(root@, segs_view(path@)) is None,
        },
{
    let ghost segs = segs_view(path@);
    let mut current: &JsonValue = root;
    let n = path.len();
    let mut i: usize = 0;
    proof {
        assert(segs.skip(0) =~= segs);
    }
    while i < n
        invariant
            segs == segs_view(path@),
            n == path@.len(),
            i <= n,
            spec_resolve_path(root@, segs) == spec_resolve_path(current@, segs.skip(i as int)),
        decreases n - i,
    {
        proof {
            assert(segs.skip(i as int)[0] == segs[i as int]);
            assert(segs.skip(i as int).drop_first() =~= segs.skip(i as int + 1));
        }
        match &path[i] {
            PathSegment::Key(k) => {
                match current.get_field(k.as_str()) {
                    Some(next) => {
                        current = next;
                    },
                    None => {
                        proof {
                            if current@ is Obj {
                            } else {
                            }
                        }
                        return None;
                    },
                }
            },
            PathSegment::Index(idx) => {
                match current {
                    JsonValue::Array(items) => {
                        if *idx < items.len() {
                            proof {
                                assert(current@->Arr_0[*idx as int] == crate::jsonval::arr_view(
                                    items@,
                                )[*idx as int]);
                            }
                            current = &items[*idx];
                        } else {
                            return None;
                        }
                    },
                    _ => {
                        return None;
                    },
                }
            },
        }
        i += 1;
    }
    proof {
        assert(segs.skip(n as int).len() == 0);
    }
    Some(current)
}

/// Leading occurrences of `c` stripped.
pub open spec fn strip_lead(s: Seq<char>, c: char) -> Seq<char>
    decreases s.len(),
{
    if s.len() == 0 {
        s
    } else if s[0] == c {
        strip_lead(s.drop_first(), c)
    } else {
        s
    }
}

/// Trailing occurrences of `c` stripped.
pub open spec fn strip_trail(s: Seq<char>, c: char) -> Seq<char>
    decreases s.len(),
{
    if s.len() == 0 {
        s
    } else if s[s.len() - 1] == c {
        strip_trail(s.drop_last(), c)
    } else {
        s
    }
}

proof fn lemma_strip_lead_window(s: Seq<char>, c: char, i: int)
    requires
        0 <= i <= s.len(),
        forall|j: int| 0 <= j < i ==> s[j] == c,
        i < s.len() ==> s[i] != c,
    ensures
        strip_lead(s, c) == s.skip(i),
    decreases i,
{
    if i == 0 {
        assert(s.skip(0) =~= s);
    } else {
        lemma_strip_lead_window(s.drop_first(), c, i - 1);
        assert(s.drop_first().skip(i - 1) =~= s.skip(i));
    }
}

proof fn lemma_strip_trail_window(s: Seq<char>, c: char, j: int)
    requires
        0 <= j <= s.len(),
        forall|k: int| j <= k < s.len() ==> s[k] == c,
        j > 0 ==> s[j - 1] != c,
    ensures
        strip_trail(s, c) == s.take(j),
    decreases s.len() - j,
{
    if j == s.len() {
        assert(s.take(j) =~= s);
    } else {
        lemma_strip_trail_window(s.drop_last(), c, j);
        assert(s.drop_last().take(j) =~= s.take(j));
    }
}

/// What a template that is exactly one expression reduces to: the inside
/// of its braces, trimmed; anything else is not an exact expression.
pub open spec fn spec_exact_expression(raw: Seq<char>) -> Option<Seq<char>> {
    let t = trim_spec(raw);
    if crate::strutil::has_prefix(t, "{{"@) && t.len() >= 2 && t.subrange(
        t.len() - 2,
        t.len() as int,
    ) == "}}"@ {
        let inner = trim_spec(strip_trail(strip_lead(t, '{'), '}'));
        if inner.len() == 0 {
            None
        } else {
            Some(inner)
        }
    } else {
        None
    }
}

/// The expression inside a template that is exactly `{{ ... }}`.
pub fn extract_exact_expression(raw: &str) -> (r: Option<String>)
    ensures
        match r {
            Some(e) => spec_exact_expression(raw@) == Some(e@),
            None => spec_exact_expression(raw@) is None,
        },
{
    let t = trim(raw);
    let n = t.as_str().unicode_len();
    let opens = crate::strutil::starts_with(t.as_str(), "{{");
    if !opens {
        return None;
    }
    proof {
        reveal_strlit("{{");
        reveal_strlit("}}");
    }
    if n < 2 || t.as_str().get_char(n - 1) != '}' || t.as_str().get_char(n - 2) != '}' {
        proof {
            if t@.len() >= 2 && t@.subrange(t@.len() - 2, t@.len() as int) == "}}"@ {
                assert(t@.subrange(t@.len() - 2, t@.len() as int)[0] == t@[t@.len() - 2]);
                assert(t@.subrange(t@.len() - 2, t@.len() as int)[1] == t@[t@.len() - 1]);
            }
        }
        return None;
    }
    proof {
        assert(t@.subrange(t@.len() - 2, t@.len() as int) =~= "}}"@);
    }
    // strip the braces from both sides
    let mut a: usize = 0;
    while a < n && t.as_str().get_char(a) == '{'
        invariant
            n == t@.len(),
            a <= n,
            forall|j: int| 0 <= j < a ==> t@[j] == '{',
        decreases n - a,
    {
        a += 1;
    }
    proof {
        lemma_strip_lead_window(t@, '{', a as int);
    }
    let ghost mid = t@.skip(a as int);
    let mut b: usize = n;
    while b > a && t.as_str().get_char(b - 1) == '}'
        invariant
            n == t@.len(),
            a <= b <= n,
            forall|k: int| b <= k < n ==> t@[k] == '}',
        decreases b,
    {
        b -= 1;
    }
    proof {
        assert(forall|k: int| (b - a) <= k < mid.len() ==> mid[k] == t@[k + a] && mid[k] == '}');
        assert(b > a ==> mid[b - a - 1] == t@[b - 1]);
        lemma_strip_trail_window(mid, '}', b - a);
    }
    let sliced = t.as_str().substring_char(a, b);
    proof {
        assert(sliced@ =~= mid.take(b - a));
    }
    let inner = trim(sliced);
    if inner.as_str().unicode_len() == 0 {
        None
    } else {
        Some(inner)
    }
}

} // verus!
