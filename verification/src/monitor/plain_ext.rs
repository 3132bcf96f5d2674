//! Lines of graphviz's `-Tplain-ext` output: space-separated fields, the
//! first of which names the kind of line.
use vstd::prelude::*;
use vstd::string::StrSliceExecFns;
use vstd::string::StringExecFns;
use crate::text::{all_digits, digits_value, parse_unsigned};

verus! {

/// One line of a plain-ext drawing.
#[derive(Clone, Debug)]
pub enum GraphVizPlainExt {
    Graph { width: u32, height: u32, fps: u32 },
    Node {
        name: String,
        x: u32,
        y: u32,
        width: u32,
        height: u32,
        label: String,
        style: String,
        shape: String,
        color: String,
        fillcolor: String,
    },
    Edge {
        name: String,
        x: u32,
        y: u32,
        width: u32,
        height: u32,
        label: String,
        style: String,
        shape: String,
        color: String,
        fillcolor: String,
    },
}

/// Why a line could not be read.
#[derive(Clone, Copy, Debug, PartialEq, Eq, Structural)]
pub enum PlainExtError {
    /// A field that should hold a number does not.
    InvalidNumber,
}

/// The fields of `s` between its spaces, as `str::split(' ')` gives them:
/// one more field than there are spaces, empty fields included.
pub open spec fn spec_split(s: Seq<char>) -> Seq<Seq<char>>
    decreases s.len(),
{
    if s.len() == 0 {
        seq![Seq::empty()]
    } else {
        let front = spec_split(s.drop_last());
        if s.last() == ' ' {
            front.push(Seq::empty())
        } else {
            front.update(front.len() - 1, front.last().push(s.last()))
        }
    }
}

/// The fields of `s` between its spaces, as `str::split(' ')` gives them.
pub fn split_fields(s: &str) -> (r: Vec<String>)
    ensures
        r@.len() == spec_split(s@).len(),
        forall|i: int| 0 <= i < r@.len() ==> #[trigger] r@[i]@ == spec_split(s@)[i],
{
    let n = s.unicode_len();
    let mut fields: Vec<String> = Vec::new();
    let mut start: usize = 0;
    let mut i: usize = 0;
    while i < n
        invariant
            n == s@.len(),
            start <= i <= n,
            fields@.len() + 1 == spec_split(s@.subrange(0, i as int)).len(),
            forall|k: int| 0 <= k < fields@.len() ==> #[trigger] fields@[k]@ == spec_split(
                s@.subrange(0, i as int),
            )[k],
            spec_split(s@.subrange(0, i as int)).last() == s@.subrange(start as int, i as int),
        decreases n - i,
    {
        let c = s.get_char(i);
        let ghost prefix = s@.subrange(0, i as int);
        assert(s@.subrange(0, i + 1).drop_last() =~= prefix);
        if c == ' ' {
            let field = String::from_str(s.substring_char(start, i));
            fields.push(field);
            start = i + 1;
            assert(s@.subrange(start as int, i + 1) =~= Seq::<char>::empty());
        } else {
            assert(s@.subrange(start as int, i + 1) =~= s@.subrange(start as int, i as int).push(c));
        }
        i = i + 1;
    }
    let last = String::from_str(s.substring_char(start, n));
    fields.push(last);
    assert(s@.subrange(0, n as int) =~= s@);
    fields
}

/// The position of the first `.` in `d` at `k` or after it.
pub open spec fn first_dot(d: Seq<char>, k: int) -> Option<int>
    decreases d.len() - k,
{
    if k < 0 || k >= d.len() {
        None
    } else if d[k] == '.' {
        Some(k)
    } else {
        first_dot(d, k + 1)
    }
}

/// The whole part of the decimal number `s`: an optional `+`, then decimal
/// digits, optionally followed by a `.` and more digits, with at least one
/// digit in all. The digits before the `.` are the whole part, which must
/// fit in 32 bits; the fraction is dropped. None for anything else.
pub open spec fn spec_whole_part(s: Seq<char>) -> Option<u32> {
    let d = if s.len() > 0 && s[0] == '+' {
        s.skip(1)
    } else {
        s
    };
    let (w, f) = match first_dot(d, 0) {
        None => (d, Seq::<char>::empty()),
        Some(p) => (d.take(p), d.skip(p + 1)),
    };
    if w.len() + f.len() > 0 && all_digits(w) && all_digits(f) && digits_value(w) <= u32::MAX {
        Some(digits_value(w) as u32)
    } else {
        None
    }
}

/// The position of the first `.` in `s`.
fn find_dot(s: &str) -> (r: Option<usize>)
    ensures
        r matches Some(i) ==> first_dot(s@, 0) == Some(i as int) && i < s@.len(),
        r is None ==> first_dot(s@, 0) is None,
{
    let n = s.unicode_len();
    let mut k: usize = 0;
    while k < n
        invariant
            n == s@.len(),
            k <= n,
            first_dot(s@, 0) == first_dot(s@, k as int),
        decreases n - k,
    {
        if s.get_char(k) == '.' {
            return Some(k);
        }
        k = k + 1;
    }
    None
}

/// Whether every character of `s` is a decimal digit.
fn digits_only(s: &str) -> (r: bool)
    ensures
        r == all_digits(s@),
{
    let n = s.unicode_len();
    let mut k: usize = 0;
    while k < n
        invariant
            n == s@.len(),
            k <= n,
            forall|i: int| 0 <= i < k ==> '0' <= #[trigger] s@[i] <= '9',
        decreases n - k,
    {
        let c = s.get_char(k);
        if c < '0' || c > '9' {
            return false;
        }
        k = k + 1;
    }
    true
}

/// The whole part of the decimal number `s`; see `spec_whole_part`.
pub fn parse_whole_part(s: &str) -> (r: Option<u32>)
    ensures
        r == spec_whole_part(s@),
{
    let n = s.unicode_len();
    let d = if n > 0 && s.get_char(0) == '+' {
        s.substring_char(1, n)
    } else {
        s
    };
    assert(n > 0 && s@[0] == '+' ==> d@ =~= s@.skip(1));
    let m = d.unicode_len();
    let (w, f) = match find_dot(d) {
        None => {
            let e = d.substring_char(m, m);
            assert(e@ =~= Seq::<char>::empty());
            (d, e)
        },
        Some(p) => {
            let w = d.substring_char(0, p);
            let f = d.substring_char(p + 1, m);
            assert(w@ =~= d@.take(p as int));
            assert(f@ =~= d@.skip(p + 1));
            (w, f)
        },
    };
    if w.unicode_len() + f.unicode_len() == 0 || !digits_only(w) || !digits_only(f) {
        return None;
    }
    if w.unicode_len() == 0 {
        return Some(0);
    }
    proof {
        assert('0' <= w@[0] <= '9');
    }
    match parse_unsigned(w, 0xffff_ffffu64) {
        Some(v) => Some(v as u32),
        None => None,
    }
}

/// The four numbers of a `node` line with fields `e`: the whole parts of
/// position and size, in fields 2 to 5.
pub open spec fn node_numbers(e: Seq<Seq<char>>) -> Option<(u32, u32, u32, u32)> {
    match (spec_whole_part(e[2]), spec_whole_part(e[3]), spec_whole_part(e[4]), spec_whole_part(e[5])) {
        (Some(x), Some(y), Some(w), Some(h)) => Some((x, y, w, h)),
        _ => None,
    }
}

/// The string views of a sequence of fields.
pub open spec fn field_views(v: Seq<String>) -> Seq<Seq<char>> {
    Seq::new(v.len(), |i: int| v[i]@)
}

impl GraphVizPlainExt {
    /// The node a `node` line describes, from its fields: name, x, y,
    /// width, height, label, style, shape, color and fillcolor, after the
    /// kind. The four numbers are decimals, of which the whole part is kept;
    /// an error when one of them is not a decimal number.
    pub fn node_from_fields(e: &Vec<String>) -> (r: Result<GraphVizPlainExt, PlainExtError>)
        requires
            e@.len() >= 11,
        ensures
            match node_numbers(field_views(e@)) {
                Some((x0, y0, w0, h0)) => r matches Ok(GraphVizPlainExt::Node {
                    name,
                    x,
                    y,
                    width,
                    height,
                    label,
                    style,
                    shape,
                    color,
                    fillcolor,
                }) && x == x0 && y == y0 && width == w0 && height == h0 && name@ == e@[1]@ && label@
                    == e@[6]@ && style@ == e@[7]@ && shape@ == e@[8]@ && color@ == e@[9]@
                    && fillcolor@ == e@[10]@,
                None => r == Err::<GraphVizPlainExt, PlainExtError>(PlainExtError::InvalidNumber),
            },
    {
        let ghost v = field_views(e@);
        assert(v[2] == e@[2]@ && v[3] == e@[3]@ && v[4] == e@[4]@ && v[5] == e@[5]@);
        let x = match parse_whole_part(e[2].as_str()) {
            Some(n) => n,
            None => return Err(PlainExtError::InvalidNumber),
        };
        let y = match parse_whole_part(e[3].as_str()) {
            Some(n) => n,
            None => return Err(PlainExtError::InvalidNumber),
        };
        let width = match parse_whole_part(e[4].as_str()) {
            Some(n) => n,
            None => return Err(PlainExtError::InvalidNumber),
        };
        let height = match parse_whole_part(e[5].as_str()) {
            Some(n) => n,
            None => return Err(PlainExtError::InvalidNumber),
        };
        Ok(GraphVizPlainExt::Node {
            name: e[1].clone(),
            x,
            y,
            width,
            height,
            label: e[6].clone(),
            style: e[7].clone(),
            shape: e[8].clone(),
            color: e[9].clone(),
            fillcolor: e[10].clone(),
        })
    }
}

} // verus!
