//! The grammar of right-hand-side literals, and the parser of every form but the
//! bracketed curve (see `TscnHelper::parse_rhs`).
use crate::number::{
    float_lit, id_lit, int_lit, is_plain_decimal, parse_decimal, parse_id, parse_int,
    plain_decimal,
};
use crate::text::{
    equals_text, is_text, remove_space, slice_of, strip, strip_chars, trim, trim_chars,
    without_space, CharClass,
};
use crate::types::{ControlPoint, Curve, Decimal, PropertyMap, VarType, Vector2};
use vstd::prelude::*;

verus! {

/// What a literal denotes, over plain values.
pub enum Literal {
    Num(int),
    Bool(bool),
    Float(Decimal),
    Str(Seq<char>),
    Curve(Seq<ControlPoint>),
    Rect2(Vector2, Vector2),
    IntArr(Seq<isize>),
    FloatArr(Seq<Decimal>),
    Vector(Vector2),
    VectorArr(Seq<Vector2>),
    /// A list that holds one empty map.
    ArrMap,
    /// An empty map.
    Dict,
    SubResource(int),
    ExtResource(int),
    Raw(Seq<char>),
}

/// `v` holds what `l` denotes.
pub open spec fn is_literal(v: &VarType, l: Literal) -> bool {
    match l {
        Literal::Num(n) => v is Num && v->Num_0 as int == n,
        Literal::Bool(b) => v is Bool && v->Bool_0 == b,
        Literal::Float(d) => v is Float && v->Float_0 == d,
        Literal::Str(s) => v is Str && v->Str_0@ == s,
        Literal::Curve(p) => v is Curve && v->Curve_0@ == p,
        Literal::Rect2(a, b) => v is Rect2 && v->Rect2_0@ == seq![a, b],
        Literal::IntArr(a) => v is IntArr && v->IntArr_0@ == a,
        Literal::FloatArr(a) => v is FloatArr && v->FloatArr_0@ == a,
        Literal::Vector(a) => v is Vector && v->Vector_0 == a,
        Literal::VectorArr(a) => v is VectorArr && v->VectorArr_0@ == a,
        Literal::ArrMap => v is ArrMap && v->ArrMap_0@.len() == 1
            && v->ArrMap_0@[0].entries@.len() == 0,
        Literal::Dict => v is Dict && v->Dict_0.entries@.len() == 0,
        Literal::SubResource(n) => v is SubResource && v->SubResource_0 as int == n,
        Literal::ExtResource(n) => v is ExtResource && v->ExtResource_0 as int == n,
        Literal::Raw(s) => v is Raw && v->Raw_0@ == s,
    }
}

/// The text between `pre` and `post` when `s` is `pre`, at least one character, `post`.
pub open spec fn wrapped(s: Seq<char>, pre: Seq<char>, post: Seq<char>) -> Option<Seq<char>> {
    if s.len() > pre.len() + post.len() && s.take(pre.len() as int) == pre && s.skip(
        s.len() - post.len(),
    ) == post {
        Some(s.subrange(pre.len() as int, s.len() - post.len()))
    } else {
        None
    }
}

/// Where the first `", "` of `s` starts, or the length of `s`.
pub open spec fn sep_at(s: Seq<char>) -> nat
    decreases s.len(),
{
    if s.len() < 2 {
        s.len()
    } else if s[0] == ',' && s[1] == ' ' {
        0
    } else {
        1 + sep_at(s.drop_first())
    }
}

/// The parts of `s` between the separators `", "`.
pub open spec fn list_parts(s: Seq<char>) -> Seq<Seq<char>>
    decreases s.len(),
{
    let k = sep_at(s);
    if k + 2 <= s.len() {
        seq![s.take(k as int)] + list_parts(s.skip(k + 2int))
    } else {
        seq![s]
    }
}

/// Every part an integer.
pub open spec fn int_list(p: Seq<Seq<char>>) -> Option<Seq<isize>> {
    if forall|i: int| 0 <= i < p.len() ==> (#[trigger] int_lit(p[i])) is Some {
        Some(Seq::new(p.len(), |i: int| int_lit(p[i])->0 as isize))
    } else {
        None
    }
}

/// Every part a decimal.
pub open spec fn float_list(p: Seq<Seq<char>>) -> Option<Seq<Decimal>> {
    if forall|i: int| 0 <= i < p.len() ==> (#[trigger] float_lit(p[i])) is Some {
        Some(Seq::new(p.len(), |i: int| float_lit(p[i])->0))
    } else {
        None
    }
}

/// Consecutive pairs of decimals as vectors; an odd last one is left out.
pub open spec fn pairs(f: Seq<Decimal>) -> Seq<Vector2> {
    Seq::new(f.len() / 2, |i: int| Vector2 { x: f[2 * i], y: f[2 * i + 1] })
}

/// `Vector2( x, y )`, each component in the plain decimal form.
pub open spec fn vector_lit(s: Seq<char>) -> Option<Vector2> {
    match wrapped(s, "Vector2( "@, " )"@) {
        Some(inner) => {
            let p = list_parts(inner);
            if p.len() == 2 && plain_decimal(p[0]) && plain_decimal(p[1]) && float_lit(p[0]) is Some
                && float_lit(p[1]) is Some {
                Some(Vector2 { x: float_lit(p[0])->0, y: float_lit(p[1])->0 })
            } else {
                None
            }
        },
        None => None,
    }
}

/// The decimals of `Name( a, b, ... )`.
pub open spec fn pool_floats(s: Seq<char>, pre: Seq<char>) -> Option<Seq<Decimal>> {
    match wrapped(s, pre, " )"@) {
        Some(inner) => float_list(list_parts(inner)),
        None => None,
    }
}

/// `Rect2( a, b, c, d )`, four decimals.
pub open spec fn rect_lit(s: Seq<char>) -> bool {
    pool_floats(s, "Rect2( "@) is Some && pool_floats(s, "Rect2( "@)->0.len() == 4
}

/// The first (`k == 0`) or second corner of a rectangle literal.
pub open spec fn rect_corner(s: Seq<char>, k: int) -> Vector2 {
    let f = pool_floats(s, "Rect2( "@)->0;
    Vector2 { x: f[2 * k], y: f[2 * k + 1] }
}

/// `PoolIntArray( a, b, ... )`, integers.
pub open spec fn int_pool_lit(s: Seq<char>) -> Option<Seq<isize>> {
    match wrapped(s, "PoolIntArray( "@, " )"@) {
        Some(inner) => int_list(list_parts(inner)),
        None => None,
    }
}

/// `Name(N)`, with at most one white-space character on each side of the digits.
pub open spec fn ref_lit(s: Seq<char>, pre: Seq<char>) -> Option<int> {
    match wrapped(s, pre, ")"@) {
        Some(inner) => {
            let a = if inner.len() > 0 && crate::text::is_space(inner[0]) {
                1int
            } else {
                0
            };
            let t = inner.skip(a);
            let b = if t.len() > 0 && crate::text::is_space(t.last()) {
                1int
            } else {
                0
            };
            id_lit(t.take(t.len() - b))
        },
        None => None,
    }
}

/// The literal that `s` denotes, the bracketed curve aside, tried in this order:
/// quoted string, `[{`, `{`, boolean, vector, vector pool, rectangle, integer pool,
/// decimal pool, sub-resource, external resource, integer, decimal, and else the
/// raw text.
#[verifier::opaque]
pub open spec fn plain_literal(s: Seq<char>) -> Literal {
    if crate::borders(s, '"', '"') {
        Literal::Str(strip(s, CharClass::Is('"')))
    } else if without_space(s) == "[{"@ {
        Literal::ArrMap
    } else if trim(s) == "{"@ {
        Literal::Dict
    } else if s == "true"@ {
        Literal::Bool(true)
    } else if s == "false"@ {
        Literal::Bool(false)
    } else if vector_lit(s) is Some {
        Literal::Vector(vector_lit(s)->0)
    } else if pool_floats(s, "PoolVector2Array( "@) is Some {
        Literal::VectorArr(pairs(pool_floats(s, "PoolVector2Array( "@)->0))
    } else if rect_lit(s) {
        Literal::Rect2(rect_corner(s, 0), rect_corner(s, 1))
    } else if int_pool_lit(s) is Some {
        Literal::IntArr(int_pool_lit(s)->0)
    } else if pool_floats(s, "PoolRealArray( "@) is Some {
        Literal::FloatArr(pool_floats(s, "PoolRealArray( "@)->0)
    } else if ref_lit(s, "SubResource("@) is Some {
        Literal::SubResource(ref_lit(s, "SubResource("@)->0)
    } else if ref_lit(s, "ExtResource("@) is Some {
        Literal::ExtResource(ref_lit(s, "ExtResource("@)->0)
    } else if int_lit(s) is Some {
        Literal::Num(int_lit(s)->0)
    } else if float_lit(s) is Some {
        Literal::Float(float_lit(s)->0)
    } else {
        Literal::Raw(s)
    }
}

/// The views of a list of character vectors.
pub open spec fn views(v: Seq<Vec<char>>) -> Seq<Seq<char>> {
    v.map_values(|x: Vec<char>| x@)
}

/// The text between `pre` and `post`, as `wrapped` says.
pub fn wrapped_inner(s: &Vec<char>, pre: &str, post: &str) -> (r: Option<Vec<char>>)
    ensures
        r is Some <==> wrapped(s@, pre@, post@) is Some,
        r is Some ==> r->0@ == wrapped(s@, pre@, post@)->0,
{
    let a = pre.unicode_len();
    let b = post.unicode_len();
    if s.len() <= a || s.len() - a <= b {
        return None;
    }
    let e = s.len() - b;
    assert(s@.subrange(0, a as int) =~= s@.take(a as int));
    assert(s@.subrange(e as int, s@.len() as int) =~= s@.skip(e as int));
    if !is_text(s, 0, a, pre) || !is_text(s, e, s.len(), post) {
        return None;
    }
    Some(slice_of(s, a, e))
}

/// Where the first `", "` at or after `start` begins, or the length of `s`.
fn find_sep(s: &Vec<char>, start: usize) -> (r: usize)
    requires
        start <= s@.len(),
    ensures
        r == start + sep_at(s@.skip(start as int)),
        r <= s@.len(),
        r + 2 <= s@.len() || r == s@.len(),
{
    let mut i = start;
    while i < s.len() && i + 1 < s.len() && !(s[i] == ',' && s[i + 1] == ' ')
        invariant
            start <= i <= s@.len(),
            sep_at(s@.skip(start as int)) == (i - start) + sep_at(s@.skip(i as int)),
        decreases s@.len() - i,
    {
        assert(s@.skip(i as int).drop_first() =~= s@.skip(i as int + 1));
        i = i + 1;
    }
    if i < s.len() && i + 1 < s.len() {
        i
    } else {
        s.len()
    }
}

/// The parts of `s` between the separators `", "`.
pub fn split_list(s: &Vec<char>) -> (r: Vec<Vec<char>>)
    ensures
        views(r@) == list_parts(s@),
{
    let mut parts: Vec<Vec<char>> = Vec::new();
    let mut pos: usize = 0;
    assert(s@.skip(0) =~= s@);
    loop
        invariant
            pos <= s@.len(),
            views(parts@) + list_parts(s@.skip(pos as int)) == list_parts(s@),
        decreases s@.len() - pos,
    {
        let k = find_sep(s, pos);
        let ghost rest = s@.skip(pos as int);
        if k < s.len() && k + 2 <= s.len() {
            let part = slice_of(s, pos, k);
            proof {
                assert(part@ =~= rest.take(k - pos));
                assert(rest.skip(k - pos + 2) =~= s@.skip(k + 2));
            }
            let ghost before = parts@;
            parts.push(part);
            assert(views(parts@) =~= views(before).push(part@));
            assert(views(parts@) + list_parts(s@.skip(k + 2)) =~= views(before) + list_parts(rest));
            pos = k + 2;
        } else {
            let part = slice_of(s, pos, s.len());
            assert(part@ =~= rest);
            let ghost before = parts@;
            parts.push(part);
            assert(views(parts@) =~= views(before).push(part@));
            assert(views(parts@) =~= views(before) + list_parts(rest));
            return parts;
        }
    }
}

fn parse_int_list(p: &Vec<Vec<char>>) -> (r: Option<Vec<isize>>)
    ensures
        r is Some <==> int_list(views(p@)) is Some,
        r is Some ==> r->0@ == int_list(views(p@))->0,
{
    let ghost q = views(p@);
    let mut out: Vec<isize> = Vec::new();
    let mut i: usize = 0;
    while i < p.len()
        invariant
            i <= p@.len() == q.len(),
            q == views(p@),
            forall|j: int| 0 <= j < i ==> (#[trigger] int_lit(q[j])) is Some,
            out@ =~= Seq::new(i as nat, |j: int| int_lit(q[j])->0 as isize),
        decreases p@.len() - i,
    {
        assert(q[i as int] == p@[i as int]@);
        match parse_int(&p[i]) {
            None => {
                return None;
            },
            Some(v) => {
                out.push(v);
            },
        }
        i = i + 1;
    }
    Some(out)
}

fn parse_float_list(p: &Vec<Vec<char>>) -> (r: Option<Vec<Decimal>>)
    ensures
        r is Some <==> float_list(views(p@)) is Some,
        r is Some ==> r->0@ == float_list(views(p@))->0,
{
    let ghost q = views(p@);
    let mut out: Vec<Decimal> = Vec::new();
    let mut i: usize = 0;
    while i < p.len()
        invariant
            i <= p@.len() == q.len(),
            q == views(p@),
            forall|j: int| 0 <= j < i ==> (#[trigger] float_lit(q[j])) is Some,
            out@ =~= Seq::new(i as nat, |j: int| float_lit(q[j])->0),
        decreases p@.len() - i,
    {
        assert(q[i as int] == p@[i as int]@);
        match parse_decimal(&p[i]) {
            None => {
                return None;
            },
            Some(v) => {
                out.push(v);
            },
        }
        i = i + 1;
    }
    Some(out)
}

fn parse_vector(s: &Vec<char>) -> (r: Option<Vector2>)
    ensures
        r == vector_lit(s@),
{
    let inner = match wrapped_inner(s, "Vector2( ", " )") {
        None => {
            return None;
        },
        Some(v) => v,
    };
    let p = split_list(&inner);
    if p.len() != 2 {
        return None;
    }
    assert(views(p@)[0] == p@[0]@ && views(p@)[1] == p@[1]@);
    if !is_plain_decimal(&p[0]) || !is_plain_decimal(&p[1]) {
        return None;
    }
    match (parse_decimal(&p[0]), parse_decimal(&p[1])) {
        (Some(x), Some(y)) => Some(Vector2 { x, y }),
        _ => None,
    }
}

fn parse_pool_floats(s: &Vec<char>, pre: &str) -> (r: Option<Vec<Decimal>>)
    ensures
        r is Some <==> pool_floats(s@, pre@) is Some,
        r is Some ==> r->0@ == pool_floats(s@, pre@)->0,
{
    match wrapped_inner(s, pre, " )") {
        None => None,
        Some(inner) => {
            let p = split_list(&inner);
            parse_float_list(&p)
        },
    }
}

fn pair_up(f: &Vec<Decimal>) -> (r: Vec<Vector2>)
    ensures
        r@ == pairs(f@),
{
    let mut out: Vec<Vector2> = Vec::new();
    let mut i: usize = 0;
    let len = f.len();
    let n = len / 2;
    while i < n
        invariant
            len == f@.len(),
            n == len / 2,
            i <= n,
            out@ =~= Seq::new(i as nat, |j: int| Vector2 { x: f@[2 * j], y: f@[2 * j + 1] }),
        decreases n - i,
    {
        assert(2 * i + 1 < f@.len()) by (nonlinear_arith)
            requires
                i < n,
                n == len / 2,
                len == f@.len(),
        ;
        let j = i + i;
        out.push(Vector2 { x: f[j], y: f[j + 1] });
        i = i + 1;
    }
    out
}

fn parse_int_pool(s: &Vec<char>) -> (r: Option<Vec<isize>>)
    ensures
        r is Some <==> int_pool_lit(s@) is Some,
        r is Some ==> r->0@ == int_pool_lit(s@)->0,
{
    match wrapped_inner(s, "PoolIntArray( ", " )") {
        None => None,
        Some(inner) => {
            let p = split_list(&inner);
            parse_int_list(&p)
        },
    }
}

fn parse_ref(s: &Vec<char>, pre: &str) -> (r: Option<usize>)
    ensures
        r is Some <==> ref_lit(s@, pre@) is Some,
        r is Some ==> r->0 as int == ref_lit(s@, pre@)->0,
{
    let inner = match wrapped_inner(s, pre, ")") {
        None => {
            return None;
        },
        Some(v) => v,
    };
    let a: usize = if inner.len() > 0 && crate::text::class_has(inner[0], CharClass::Space) {
        1
    } else {
        0
    };
    let t = slice_of(&inner, a, inner.len());
    assert(t@ =~= inner@.skip(a as int));
    let b: usize = if t.len() > 0 && crate::text::class_has(t[t.len() - 1], CharClass::Space) {
        1
    } else {
        0
    };
    let d = slice_of(&t, 0, t.len() - b);
    assert(d@ =~= t@.take(t@.len() - b));
    parse_id(&d)
}

fn has_borders(s: &Vec<char>, start: char, end: char) -> (r: bool)
    ensures
        r == crate::borders(s@, start, end),
{
    s.len() >= 2 && s[0] == start && s[s.len() - 1] == end
}

/// Parses every literal form but the bracketed curve.
pub fn plain_value(s: &Vec<char>) -> (r: VarType)
    ensures
        is_literal(&r, plain_literal(s@)),
{
    reveal(plain_literal);
    if has_borders(s, '"', '"') {
        return VarType::Str(crate::text::string_of(&strip_chars(s, CharClass::Is('"'))));
    }
    if equals_text(&remove_space(s), "[{") {
        let mut v: Vec<PropertyMap> = Vec::new();
        v.push(PropertyMap::new());
        return VarType::ArrMap(v);
    }
    if equals_text(&trim_chars(s), "{") {
        return VarType::Dict(PropertyMap::new());
    }
    if equals_text(s, "true") {
        return VarType::Bool(true);
    }
    if equals_text(s, "false") {
        return VarType::Bool(false);
    }
    if let Some(v) = parse_vector(s) {
        return VarType::Vector(v);
    }
    if let Some(f) = parse_pool_floats(s, "PoolVector2Array( ") {
        return VarType::VectorArr(pair_up(&f));
    }
    if let Some(f) = parse_pool_floats(s, "Rect2( ") {
        if f.len() == 4 {
            return VarType::Rect2([Vector2 { x: f[0], y: f[1] }, Vector2 { x: f[2], y: f[3] }]);
        }
    }
    if let Some(a) = parse_int_pool(s) {
        return VarType::IntArr(a);
    }
    if let Some(f) = parse_pool_floats(s, "PoolRealArray( ") {
        return VarType::FloatArr(f);
    }
    if let Some(n) = parse_ref(s, "SubResource(") {
        return VarType::SubResource(n);
    }
    if let Some(n) = parse_ref(s, "ExtResource(") {
        return VarType::ExtResource(n);
    }
    if let Some(n) = parse_int(s) {
        return VarType::Num(n);
    }
    if let Some(d) = parse_decimal(s) {
        return VarType::Float(d);
    }
    VarType::Raw(crate::text::string_of(s))
}

} // verus!
