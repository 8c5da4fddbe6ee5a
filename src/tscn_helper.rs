//! Header lines and right-hand sides: the attribute tokenizer, the block descriptor
//! that a header folds into, and the value parser with its curve form.
use crate::literal::{is_literal, plain_literal, plain_value, Literal};
use crate::text::{
    chars_of, is_space, run_end, run_len, slice_of, strip, strip_end, strip_end_chars, strip_start,
    strip_start_chars, trail_start, trim, trim_chars, CharClass,
};
use crate::types::{ControlPoint, Curve, VarType};
use vstd::prelude::*;

verus! {

/// The state of the element splitter after some characters.
pub struct SplitState {
    pub quoted: bool,
    pub paren: bool,
    pub cur: Seq<char>,
    pub items: Seq<Seq<char>>,
}

/// One character of the element splitter: white space outside quotes and
/// parentheses is dropped, a comma there ends an element, and the last character
/// ends the last one.
pub open spec fn split_step(st: SplitState, c: char, last: bool) -> SplitState {
    if c == ' ' && !st.quoted && !st.paren {
        st
    } else {
        let q = if c == '"' {
            !st.quoted
        } else {
            st.quoted
        };
        let p = if c == '(' {
            true
        } else if c == ')' {
            false
        } else {
            st.paren
        };
        if last {
            SplitState { quoted: q, paren: p, cur: st.cur.push(c), items: st.items.push(st.cur.push(c)) }
        } else if c == ',' && !q && !p {
            SplitState { quoted: q, paren: p, cur: Seq::empty(), items: st.items.push(st.cur) }
        } else {
            SplitState { quoted: q, paren: p, cur: st.cur.push(c), items: st.items }
        }
    }
}

/// The element splitter after the first `i` characters of `s`.
pub open spec fn split_run(s: Seq<char>, i: int) -> SplitState
    decreases i,
{
    if i <= 0 {
        SplitState { quoted: false, paren: false, cur: Seq::empty(), items: Seq::empty() }
    } else {
        split_step(split_run(s, i - 1), s[i - 1], i - 1 == s.len() - 1)
    }
}

/// The top-level comma-separated elements of `data`.
pub open spec fn elements(data: Seq<char>) -> Seq<Seq<char>> {
    let t = trim(data);
    split_run(t, t.len() as int).items
}

/// The control point that starts at element `i`: a vector and two decimals.
pub open spec fn point_at(l: Seq<Literal>, i: int) -> Option<ControlPoint> {
    if 0 <= i && i + 2 < l.len() && l[i] is Vector && l[i + 1] is Float && l[i + 2] is Float {
        Some(
            ControlPoint {
                pos: l[i]->Vector_0,
                left_tangent: l[i + 1]->Float_0,
                right_tangent: l[i + 2]->Float_0,
            },
        )
    } else {
        None
    }
}

/// The control points of the groups of five elements from element `i` on.
pub open spec fn curve_points(l: Seq<Literal>, i: int) -> Seq<ControlPoint>
    decreases l.len() - i,
{
    if i < 0 || i >= l.len() {
        Seq::empty()
    } else {
        let rest = if i + 5 < l.len() {
            curve_points(l, i + 5)
        } else {
            Seq::empty()
        };
        match point_at(l, i) {
            Some(p) => seq![p] + rest,
            None => rest,
        }
    }
}

/// The literals of the elements of `data`.
pub open spec fn element_literals(data: Seq<char>) -> Seq<Literal> {
    elements(data).map_values(|e: Seq<char>| plain_literal(e))
}

/// What a right-hand side denotes in a block of type `rtype`: in a `Curve` block a
/// bracketed list is a curve; anything else is a plain literal.
pub open spec fn rhs_literal(s: Seq<char>, rtype: Seq<char>) -> Literal {
    if crate::borders(s, '[', ']') && rtype == "Curve"@ {
        let inner = strip_end(strip_start(s, CharClass::Is('[')), CharClass::Is(']'));
        Literal::Curve(curve_points(element_literals(inner), 0))
    } else {
        plain_literal(s)
    }
}

/// The state of the attribute tokenizer after some characters.
pub struct AttrState {
    pub is_lhs: bool,
    pub quoted: bool,
    /// How many `(` and `[` outside quotes are open.
    pub depth: int,
    pub lhs: Seq<char>,
    pub rhs: Seq<char>,
    pub previous: char,
    pub cmds: Seq<(Seq<char>, Seq<char>)>,
}

/// One character of the attribute tokenizer. Outside quotes, parentheses and
/// brackets, white space is dropped but remembered, `=` after a key turns to its
/// value, and any other character after white space, once a key and a value have
/// been read, starts the next key. Everything else joins the key or the value
/// being read. Parentheses and brackets count only outside quotes.
pub open spec fn attr_step(st: AttrState, c: char) -> AttrState {
    let outside = !st.quoted && st.depth == 0;
    let q = if c == '"' {
        !st.quoted
    } else {
        st.quoted
    };
    let d = if st.quoted {
        st.depth
    } else if c == '(' || c == '[' {
        st.depth + 1
    } else if (c == ')' || c == ']') && st.depth > 0 {
        st.depth - 1
    } else {
        st.depth
    };
    if outside && is_space(c) {
        AttrState { previous: ' ', ..st }
    } else if outside && c == '=' && st.is_lhs {
        AttrState { is_lhs: false, previous: c, ..st }
    } else if outside && st.previous == ' ' && !st.is_lhs && st.lhs.len() > 0 && st.rhs.len() > 0 {
        AttrState {
            is_lhs: true,
            quoted: q,
            depth: d,
            lhs: seq![c],
            rhs: Seq::empty(),
            previous: c,
            cmds: st.cmds.push((st.lhs, st.rhs)),
        }
    } else if st.is_lhs {
        AttrState { quoted: q, depth: d, lhs: st.lhs.push(c), previous: c, ..st }
    } else {
        AttrState { quoted: q, depth: d, rhs: st.rhs.push(c), previous: c, ..st }
    }
}

/// The attribute tokenizer after the first `i` characters of `s`.
pub open spec fn attr_run(s: Seq<char>, i: int) -> AttrState
    decreases i,
{
    if i <= 0 {
        AttrState {
            is_lhs: true,
            quoted: false,
            depth: 0,
            lhs: Seq::empty(),
            rhs: Seq::empty(),
            previous: ' ',
            cmds: Seq::empty(),
        }
    } else {
        attr_step(attr_run(s, i - 1), s[i - 1])
    }
}

/// The `(key, value)` pairs of an attribute list, the last one ended by the end of
/// the list.
pub open spec fn attributes(line: Seq<char>) -> Seq<(Seq<char>, Seq<char>)> {
    let t = trim(line);
    let st = attr_run(t, t.len() as int);
    if st.lhs.len() > 0 || st.rhs.len() > 0 {
        st.cmds.push((st.lhs, st.rhs))
    } else {
        st.cmds
    }
}

/// The text of a header line between its brackets.
pub open spec fn header_contents(line: Seq<char>) -> Seq<char> {
    strip_end(strip_start(line, CharClass::Is('[')), CharClass::Is(']'))
}

/// Where the first word of the header starts.
pub open spec fn kind_start(line: Seq<char>) -> int {
    run_len(header_contents(line), CharClass::Space) as int
}

/// Where the first word of the header ends.
pub open spec fn kind_end(line: Seq<char>) -> int {
    let c = header_contents(line);
    kind_start(line) + run_len(c.skip(kind_start(line)), CharClass::NonSpace)
}

/// The first word of a header: the block type.
pub open spec fn header_kind(line: Seq<char>) -> Seq<char> {
    header_contents(line).subrange(kind_start(line), kind_end(line))
}

/// The rest of a header, trimmed: the attribute list.
pub open spec fn header_params(line: Seq<char>) -> Seq<char> {
    trim(header_contents(line).skip(kind_end(line)))
}

/// The text before and after the only `c` of `s`, if `c` occurs exactly once.
pub open spec fn split_once(s: Seq<char>, c: char) -> Option<(Seq<char>, Seq<char>)> {
    let k = run_len(s, CharClass::IsNot(c)) as int;
    if k < s.len() && run_len(s.skip(k + 1), CharClass::IsNot(c)) == s.len() - k - 1 {
        Some((s.take(k), s.skip(k + 1)))
    } else {
        None
    }
}

/// The value of the last attribute named `key`.
pub open spec fn attr_value(c: Seq<(Seq<char>, Seq<char>)>, key: Seq<char>) -> Option<Literal>
    decreases c.len(),
{
    if c.len() == 0 {
        None
    } else if c.last().0 == key {
        Some(plain_literal(c.last().1))
    } else {
        attr_value(c.drop_last(), key)
    }
}

/// A count or an id: a non-negative integer attribute, else 0.
pub open spec fn count_of(l: Option<Literal>) -> int {
    match l {
        Some(Literal::Num(n)) => if 0 <= n <= usize::MAX {
            n
        } else {
            0
        },
        _ => 0,
    }
}

/// A text attribute, else empty.
pub open spec fn text_of(l: Option<Literal>) -> Seq<char> {
    match l {
        Some(Literal::Str(s)) => s,
        _ => Seq::empty(),
    }
}

/// An external-resource reference, else 0.
pub open spec fn instance_of(l: Option<Literal>) -> int {
    match l {
        Some(Literal::ExtResource(n)) => n,
        _ => 0,
    }
}

/// The block kind that a header word names; any other word names no known kind.
pub open spec fn node_kind(k: Seq<char>) -> NodeType {
    if k == "gd_scene"@ {
        NodeType::GdScene
    } else if k == "resource"@ {
        NodeType::Resource
    } else if k == "gd_resource"@ {
        NodeType::GdResource
    } else if k == "sub_resource"@ {
        NodeType::SubResource
    } else if k == "ext_resource"@ {
        NodeType::ExtResource
    } else if k == "node"@ {
        NodeType::Node
    } else {
        NodeType::Unknown
    }
}

/// The descriptor of a header of kind `kind` with attribute list `attrs`.
pub open spec fn describes(n: Node, kind: Seq<char>, attrs: Seq<char>) -> bool {
    n.node_type == node_kind(kind) && carries(n, attributes(attrs))
}

/// The fields of `n` that attributes set hold what the pairs `c` say.
pub open spec fn carries(n: Node, c: Seq<(Seq<char>, Seq<char>)>) -> bool {
    &&& n.id as int == count_of(attr_value(c, "id"@))
    &&& n.load_steps as int == count_of(attr_value(c, "load_steps"@))
    &&& n.format as int == count_of(attr_value(c, "format"@))
    &&& n.name@ == text_of(attr_value(c, "name"@))
    &&& n.rtype@ == text_of(attr_value(c, "type"@))
    &&& n.parent@ == text_of(attr_value(c, "parent"@))
    &&& n.path@ == text_of(attr_value(c, "path"@))
    &&& n.instance_resource_id as int == instance_of(attr_value(c, "instance"@))
}

/// The attribute names that a header descriptor reads are distinct.
proof fn lemma_attribute_names()
    ensures
        "id"@ != "name"@,
        "id"@ != "type"@,
        "id"@ != "parent"@,
        "id"@ != "instance"@,
        "id"@ != "path"@,
        "id"@ != "load_steps"@,
        "id"@ != "format"@,
        "name"@ != "type"@,
        "name"@ != "parent"@,
        "name"@ != "instance"@,
        "name"@ != "path"@,
        "name"@ != "load_steps"@,
        "name"@ != "format"@,
        "type"@ != "parent"@,
        "type"@ != "instance"@,
        "type"@ != "path"@,
        "type"@ != "load_steps"@,
        "type"@ != "format"@,
        "parent"@ != "instance"@,
        "parent"@ != "path"@,
        "parent"@ != "load_steps"@,
        "parent"@ != "format"@,
        "instance"@ != "path"@,
        "instance"@ != "load_steps"@,
        "instance"@ != "format"@,
        "path"@ != "load_steps"@,
        "path"@ != "format"@,
        "load_steps"@ != "format"@,
{
    reveal_strlit("id");
    reveal_strlit("name");
    reveal_strlit("type");
    reveal_strlit("parent");
    reveal_strlit("instance");
    reveal_strlit("path");
    reveal_strlit("load_steps");
    reveal_strlit("format");
    assert("id"@.len() != "name"@.len());
    assert("id"@.len() != "type"@.len());
    assert("id"@.len() != "parent"@.len());
    assert("id"@.len() != "instance"@.len());
    assert("id"@.len() != "path"@.len());
    assert("id"@.len() != "load_steps"@.len());
    assert("id"@.len() != "format"@.len());
    assert("name"@[0] != "type"@[0]);
    assert("name"@.len() != "parent"@.len());
    assert("name"@.len() != "instance"@.len());
    assert("name"@[0] != "path"@[0]);
    assert("name"@.len() != "load_steps"@.len());
    assert("name"@.len() != "format"@.len());
    assert("type"@.len() != "parent"@.len());
    assert("type"@.len() != "instance"@.len());
    assert("type"@[0] != "path"@[0]);
    assert("type"@.len() != "load_steps"@.len());
    assert("type"@.len() != "format"@.len());
    assert("parent"@.len() != "instance"@.len());
    assert("parent"@.len() != "path"@.len());
    assert("parent"@.len() != "load_steps"@.len());
    assert("parent"@[0] != "format"@[0]);
    assert("instance"@.len() != "path"@.len());
    assert("instance"@.len() != "load_steps"@.len());
    assert("instance"@.len() != "format"@.len());
    assert("path"@.len() != "load_steps"@.len());
    assert("path"@.len() != "format"@.len());
    assert("load_steps"@.len() != "format"@.len());
}

/// The kind of a block.
#[derive(Debug, Clone, Copy, PartialEq, Eq, Structural)]
pub enum NodeType {
    Node,
    GdScene,
    Resource,
    GdResource,
    SubResource,
    ExtResource,
    /// A block type the format does not define: the header and its lines are ignored.
    Unknown,
}

/// An assignment: a property name and its value.
#[derive(Debug)]
pub struct Command {
    pub lhs: String,
    pub rhs: VarType,
}

/// The descriptor that a header line folds into.
#[derive(Debug, Clone, PartialEq)]
pub struct Node {
    pub id: usize,
    pub format: usize,
    pub load_steps: usize,
    pub path: String,
    pub name: String,
    pub rtype: String,
    pub parent: String,
    pub node_type: NodeType,
    pub instance_resource_id: usize,
}

impl Default for Node {
    fn default() -> (r: Self)
        ensures
            r.id == 0 && r.format == 0 && r.load_steps == 0 && r.instance_resource_id == 0,
            r.path@ == Seq::<char>::empty() && r.name@ == Seq::<char>::empty(),
            r.rtype@ == Seq::<char>::empty() && r.parent@ == Seq::<char>::empty(),
            r.node_type == NodeType::Node,
    {
        Node {
            id: 0,
            format: 0,
            load_steps: 0,
            path: String::new(),
            name: String::new(),
            rtype: String::new(),
            parent: String::new(),
            instance_resource_id: 0,
            node_type: NodeType::Node,
        }
    }
}

/// The text before and after the only `c` of `s`.
pub fn split_once_chars(s: &Vec<char>, c: char) -> (r: Option<(Vec<char>, Vec<char>)>)
    ensures
        match (r, split_once(s@, c)) {
            (Some((a, b)), Some((x, y))) => a@ == x && b@ == y,
            (None, None) => true,
            _ => false,
        },
{
    let k = run_end(s, 0, CharClass::IsNot(c));
    assert(s@.skip(0) =~= s@);
    if k == s.len() {
        return None;
    }
    let k2 = run_end(s, k + 1, CharClass::IsNot(c));
    if k2 != s.len() {
        return None;
    }
    let a = slice_of(s, 0, k);
    let b = slice_of(s, k + 1, s.len());
    assert(a@ =~= s@.take(k as int));
    assert(b@ =~= s@.skip(k + 1));
    Some((a, b))
}

pub struct TscnHelper();

impl TscnHelper {
    /// The top-level elements of a bracketed list, each parsed as a plain literal.
    pub fn get_splitted(data: &Vec<char>) -> (r: Vec<VarType>)
        ensures
            r@.len() == elements(data@).len(),
            forall|i: int|
                0 <= i < r@.len() ==> is_literal(&#[trigger] r@[i], plain_literal(elements(data@)[i])),
    {
        let t = trim_chars(data);
        let n = t.len();
        let mut quoted = false;
        let mut paren = false;
        let mut cur: Vec<char> = Vec::new();
        let mut vals: Vec<VarType> = Vec::new();
        let ghost mut items: Seq<Seq<char>> = Seq::empty();
        let mut i: usize = 0;
        while i < n
            invariant
                n == t@.len(),
                t@ == trim(data@),
                i <= n,
                split_run(t@, i as int) == (SplitState { quoted, paren, cur: cur@, items }),
                vals@.len() == items.len(),
                forall|j: int|
                    0 <= j < vals@.len() ==> is_literal(&#[trigger] vals@[j], plain_literal(items[j])),
            decreases n - i,
        {
            let c = t[i];
            let last = i == n - 1;
            if c == ' ' && !quoted && !paren {
            } else {
                if c == '"' {
                    quoted = !quoted;
                }
                if c == '(' {
                    paren = true;
                } else if c == ')' {
                    paren = false;
                }
                if last {
                    cur.push(c);
                    let v = plain_value(&cur);
                    vals.push(v);
                    proof {
                        items = items.push(cur@);
                    }
                } else if c == ',' && !quoted && !paren {
                    let v = plain_value(&cur);
                    vals.push(v);
                    proof {
                        items = items.push(cur@);
                    }
                    cur = Vec::new();
                } else {
                    cur.push(c);
                }
            }
            i = i + 1;
        }
        vals
    }

    fn point_of(vals: &Vec<VarType>, i: usize, lits: Ghost<Seq<Literal>>) -> (r: Option<
        ControlPoint,
    >)
        requires
            lits@.len() == vals@.len(),
            forall|j: int| 0 <= j < vals@.len() ==> is_literal(&#[trigger] vals@[j], lits@[j]),
            i < vals@.len(),
        ensures
            r == point_at(lits@, i as int),
    {
        if vals.len() - i <= 2 {
            return None;
        }
        assert(is_literal(&vals@[i as int], lits@[i as int]));
        assert(is_literal(&vals@[i + 1], lits@[i + 1]));
        assert(is_literal(&vals@[i + 2], lits@[i + 2]));
        if let VarType::Vector(v) = &vals[i] {
            if let VarType::Float(l) = &vals[i + 1] {
                if let VarType::Float(r) = &vals[i + 2] {
                    return Some(ControlPoint::new_point(v.x, v.y, *l, *r));
                }
            }
        }
        None
    }

    /// Splits a header's attribute list into `(key, value)` pairs, each value parsed
    /// as a plain literal.
    pub fn split_attributes(cmd_line: &str) -> (r: Vec<(String, VarType)>)
        ensures
            r@.len() == attributes(cmd_line@).len(),
            forall|i: int|
                0 <= i < r@.len() ==> (#[trigger] r@[i]).0@ == attributes(cmd_line@)[i].0
                    && is_literal(&r@[i].1, plain_literal(attributes(cmd_line@)[i].1)),
    {
        let t = trim_chars(&chars_of(cmd_line));
        let n = t.len();
        let mut is_lhs = true;
        let mut quoted = false;
        let mut depth: usize = 0;
        let mut lhs: Vec<char> = Vec::new();
        let mut rhs: Vec<char> = Vec::new();
        let mut previous = ' ';
        let mut commands: Vec<(String, VarType)> = Vec::new();
        let ghost mut cmds: Seq<(Seq<char>, Seq<char>)> = Seq::empty();
        let mut i: usize = 0;
        while i < n
            invariant
                n == t@.len(),
                t@ == trim(cmd_line@),
                i <= n,
                depth <= i,
                attr_run(t@, i as int) == (AttrState {
                    is_lhs,
                    quoted,
                    depth: depth as int,
                    lhs: lhs@,
                    rhs: rhs@,
                    previous,
                    cmds,
                }),
                commands@.len() == cmds.len(),
                forall|j: int|
                    0 <= j < commands@.len() ==> (#[trigger] commands@[j]).0@ == cmds[j].0
                        && is_literal(&commands@[j].1, plain_literal(cmds[j].1)),
            decreases n - i,
        {
            let c = t[i];
            let outside = !quoted && depth == 0;
            let q = if c == '"' {
                !quoted
            } else {
                quoted
            };
            let d = if quoted {
                depth
            } else if c == '(' || c == '[' {
                depth + 1
            } else if (c == ')' || c == ']') && depth > 0 {
                depth - 1
            } else {
                depth
            };
            if outside && crate::text::space_char(c) {
                previous = ' ';
            } else if outside && c == '=' && is_lhs {
                is_lhs = false;
                previous = c;
            } else if outside && previous == ' ' && !is_lhs && lhs.len() > 0 && rhs.len() > 0 {
                let v = plain_value(&rhs);
                commands.push((crate::text::string_of(&lhs), v));
                proof {
                    cmds = cmds.push((lhs@, rhs@));
                }
                lhs = Vec::new();
                lhs.push(c);
                rhs = Vec::new();
                is_lhs = true;
                quoted = q;
                depth = d;
                previous = c;
            } else {
                if is_lhs {
                    lhs.push(c);
                } else {
                    rhs.push(c);
                }
                quoted = q;
                depth = d;
                previous = c;
            }
            i = i + 1;
        }
        if lhs.len() > 0 || rhs.len() > 0 {
            let v = plain_value(&rhs);
            commands.push((crate::text::string_of(&lhs), v));
            proof {
                cmds = cmds.push((lhs@, rhs@));
            }
        }
        commands
    }

    /// Splits a header line into its block type and its attribute list.
    #[verifier::rlimit(40)]
    pub fn parse_node<'a>(line: &'a str) -> (r: (&'a str, &'a str))
        ensures
            r.0@ == header_kind(line@),
            r.1@ == header_params(line@),
    {
        let chars = chars_of(line);
        let a0 = run_end(&chars, 0, CharClass::Is('['));
        assert(chars@.skip(0) =~= chars@);
        let t = slice_of(&chars, a0, chars.len());
        assert(t@ =~= strip_start(line@, CharClass::Is('[')));
        let e = trail_start(&t, t.len(), CharClass::Is(']'));
        assert(t@.take(t@.len() as int) =~= t@);
        let c = slice_of(&t, 0, e);
        let ghost cs = header_contents(line@);
        assert(c@ =~= cs);
        assert(c@ =~= line@.subrange(a0 as int, a0 + e));
        let b = run_end(&c, 0, CharClass::Space);
        assert(c@.skip(0) =~= c@);
        assert(b == kind_start(line@));
        let k = run_end(&c, b, CharClass::NonSpace);
        assert(k == kind_end(line@));
        let x = slice_of(&c, k, c.len());
        assert(x@ =~= cs.skip(k as int));
        let s1 = run_end(&x, 0, CharClass::Space);
        assert(x@.skip(0) =~= x@);
        let y = slice_of(&x, s1, x.len());
        assert(y@ =~= strip_start(x@, CharClass::Space));
        let s2 = trail_start(&y, y.len(), CharClass::Space);
        assert(y@.take(y@.len() as int) =~= y@);
        proof {
            assert(header_params(line@) == trim(x@));
            assert(trim(x@) =~= y@.take(s2 as int));
            assert(y@.take(s2 as int) =~= line@.subrange(a0 + k + s1, a0 + k + s1 + s2));
            assert(header_kind(line@) =~= line@.subrange(a0 + b, a0 + k));
        }
        let kind = line.substring_char(a0 + b, a0 + k);
        let params = line.substring_char(a0 + k + s1, a0 + k + s1 + s2);
        (kind, params)
    }

    /// Folds a header's block type and attribute list into a descriptor. Known
    /// attributes set their field, the last occurrence winning; others are ignored.
    pub fn get_node(node_type: &str, attributes_str: &str) -> (r: Node)
        ensures
            describes(r, node_type@, attributes_str@),
    {
        proof {
            reveal_strlit("id");
            reveal_strlit("name");
            reveal_strlit("type");
            reveal_strlit("parent");
            reveal_strlit("instance");
            reveal_strlit("path");
            reveal_strlit("load_steps");
            reveal_strlit("format");
        }
        let mut node = Node::default();
        let k = chars_of(node_type);
        node.node_type = if crate::text::equals_text(&k, "gd_scene") {
            NodeType::GdScene
        } else if crate::text::equals_text(&k, "resource") {
            NodeType::Resource
        } else if crate::text::equals_text(&k, "gd_resource") {
            NodeType::GdResource
        } else if crate::text::equals_text(&k, "sub_resource") {
            NodeType::SubResource
        } else if crate::text::equals_text(&k, "ext_resource") {
            NodeType::ExtResource
        } else if crate::text::equals_text(&k, "node") {
            NodeType::Node
        } else {
            NodeType::Unknown
        };
        let attrs = Self::split_attributes(attributes_str);
        let ghost c = attributes(attributes_str@);
        let mut i: usize = 0;
        assert(c.take(0) =~= Seq::<(Seq<char>, Seq<char>)>::empty());
        while i < attrs.len()
            invariant
                c == attributes(attributes_str@),
                attrs@.len() == c.len(),
                forall|j: int|
                    0 <= j < attrs@.len() ==> (#[trigger] attrs@[j]).0@ == c[j].0 && is_literal(
                        &attrs@[j].1,
                        plain_literal(c[j].1),
                    ),
                i <= attrs@.len(),
                node.node_type == node_kind(node_type@),
                node.id as int == count_of(attr_value(c.take(i as int), "id"@)),
                node.load_steps as int == count_of(attr_value(c.take(i as int), "load_steps"@)),
                node.format as int == count_of(attr_value(c.take(i as int), "format"@)),
                node.name@ == text_of(attr_value(c.take(i as int), "name"@)),
                node.rtype@ == text_of(attr_value(c.take(i as int), "type"@)),
                node.parent@ == text_of(attr_value(c.take(i as int), "parent"@)),
                node.path@ == text_of(attr_value(c.take(i as int), "path"@)),
                node.instance_resource_id as int == instance_of(
                    attr_value(c.take(i as int), "instance"@),
                ),
            decreases attrs@.len() - i,
        {
            assert(c.take(i + 1).drop_last() =~= c.take(i as int));
            assert(c.take(i + 1).last() == c[i as int]);
            let key = chars_of(attrs[i].0.as_str());
            let value = &attrs[i].1;
            let ghost kk = c[i as int].0;
            assert(key@ == kk);
            assert forall|name: Seq<char>|
                #[trigger] attr_value(c.take(i + 1), name) == if kk == name {
                    Some(plain_literal(c[i as int].1))
                } else {
                    attr_value(c.take(i as int), name)
                } by {}
            proof {
                lemma_attribute_names();
            }
            if crate::text::equals_text(&key, "id") {
                node.id = match value {
                    VarType::Num(n) => if *n >= 0 {
                        *n as usize
                    } else {
                        0
                    },
                    _ => 0,
                };
            } else if crate::text::equals_text(&key, "name") {
                node.name = match value {
                    VarType::Str(n) => n.clone(),
                    _ => String::new(),
                };
            } else if crate::text::equals_text(&key, "type") {
                node.rtype = match value {
                    VarType::Str(n) => n.clone(),
                    _ => String::new(),
                };
            } else if crate::text::equals_text(&key, "parent") {
                node.parent = match value {
                    VarType::Str(n) => n.clone(),
                    _ => String::new(),
                };
            } else if crate::text::equals_text(&key, "instance") {
                node.instance_resource_id = match value {
                    VarType::ExtResource(n) => *n,
                    _ => 0,
                };
            } else if crate::text::equals_text(&key, "path") {
                node.path = match value {
                    VarType::Str(n) => n.clone(),
                    _ => String::new(),
                };
            } else if crate::text::equals_text(&key, "load_steps") {
                node.load_steps = match value {
                    VarType::Num(n) => if *n >= 0 {
                        *n as usize
                    } else {
                        0
                    },
                    _ => 0,
                };
            } else if crate::text::equals_text(&key, "format") {
                node.format = match value {
                    VarType::Num(n) => if *n >= 0 {
                        *n as usize
                    } else {
                        0
                    },
                    _ => 0,
                };
            }
            i = i + 1;
        }
        assert(c.take(i as int) =~= c);
        node
    }

    /// Parses a right-hand side that stands in a block of type `rtype`.
    pub fn parse_rhs(rhs_data: &str, rtype: &str) -> (r: VarType)
        ensures
            is_literal(&r, rhs_literal(rhs_data@, rtype@)),
    {
        Self::rhs_value(&chars_of(rhs_data), &chars_of(rtype))
    }

    fn rhs_value(s: &Vec<char>, t: &Vec<char>) -> (r: VarType)
        ensures
            is_literal(&r, rhs_literal(s@, t@)),
    {
        if s.len() >= 2 && s[0] == '[' && s[s.len() - 1] == ']' && crate::text::equals_text(
            &t,
            "Curve",
        ) {
            let inner = strip_end_chars(&strip_start_chars(s, CharClass::Is('[')), CharClass::Is(']'));
            let vals = Self::get_splitted(&inner);
            let ghost lits = element_literals(inner@);
            let mut curve = Curve::new();
            let len = vals.len();
            let mut i: usize = 0;
            assert(curve@ + curve_points(lits, 0) =~= curve_points(lits, 0));
            while i < len
                invariant
                    len == vals@.len() == lits.len(),
                    lits == element_literals(inner@),
                    forall|j: int|
                        0 <= j < len ==> is_literal(&#[trigger] vals@[j], lits[j]),
                    i <= len,
                    curve@ + curve_points(lits, i as int) == curve_points(lits, 0),
                decreases len - i,
            {
                let ghost before = curve@;
                let ghost pt: Seq<ControlPoint> = match point_at(lits, i as int) {
                    Some(p) => seq![p],
                    None => Seq::empty(),
                };
                let p = Self::point_of(&vals, i, Ghost(lits));
                if let Some(p) = p {
                    curve.add_point(p);
                }
                assert(curve@ =~= before + pt);
                if len - i <= 5 {
                    assert(curve_points(lits, i as int) =~= pt);
                    assert(curve_points(lits, len as int) =~= Seq::<ControlPoint>::empty());
                    i = len;
                } else {
                    assert(curve_points(lits, i as int) =~= pt + curve_points(lits, i + 5));
                    i = i + 5;
                }
            }
            return VarType::Curve(curve);
        }
        plain_value(s)
    }

    fn parse_eq(lhs: &Vec<char>, rhs: &Vec<char>, rtype: &Vec<char>) -> (r: Command)
        ensures
            r.lhs@ == trim(lhs@),
            is_literal(&r.rhs, rhs_literal(trim(rhs@), rtype@)),
    {
        let l = trim_chars(lhs);
        let v = Self::rhs_value(&trim_chars(rhs), rtype);
        Command { lhs: crate::text::string_of(&l), rhs: v }
    }

    /// Reads an assignment `key = value`: the line must hold exactly one `=`.
    pub fn parse_command(line: &str, rtype: &str) -> (r: Option<Command>)
        ensures
            match (r, split_once(line@, '=')) {
                (Some(c), Some((k, v))) => c.lhs@ == trim(k) && is_literal(
                    &c.rhs,
                    rhs_literal(trim(v), rtype@),
                ),
                (None, None) => true,
                _ => false,
            },
    {
        match split_once_chars(&chars_of(line), '=') {
            None => None,
            Some((a, b)) => Some(Self::parse_eq(&a, &b, &chars_of(rtype))),
        }
    }

    /// Reads a nested-object line `"key": value,`: the line must hold exactly one `:`;
    /// quotes round the key and a trailing comma after the value go.
    pub fn parse_obj(line: &str, rtype: &str) -> (r: Option<Command>)
        ensures
            match (r, split_once(line@, ':')) {
                (Some(c), Some((k, v))) => c.lhs@ == trim(strip(k, CharClass::Is('"')))
                    && is_literal(
                    &c.rhs,
                    rhs_literal(trim(strip_end(trim(v), CharClass::Is(','))), rtype@),
                ),
                (None, None) => true,
                _ => false,
            },
    {
        match split_once_chars(&chars_of(line), ':') {
            None => None,
            Some((a, b)) => {
                let key = crate::text::strip_chars(&a, CharClass::Is('"'));
                let value = strip_end_chars(&trim_chars(&b), CharClass::Is(','));
                Some(Self::parse_eq(&key, &value, &chars_of(rtype)))
            },
        }
    }
}

/// The variant of a value, as a number.
pub open spec fn variant_of(v: &VarType) -> int {
    match v {
        VarType::Num(_) => 0,
        VarType::Bool(_) => 1,
        VarType::Float(_) => 2,
        VarType::Str(_) => 3,
        VarType::Curve(_) => 4,
        VarType::Rect2(_) => 5,
        VarType::IntArr(_) => 6,
        VarType::FloatArr(_) => 7,
        VarType::Vector(_) => 8,
        VarType::VectorArr(_) => 9,
        VarType::ArrMap(_) => 10,
        VarType::Dict(_) => 11,
        VarType::SubResource(_) => 12,
        VarType::ExtResource(_) => 13,
        VarType::Raw(_) => 14,
    }
}

/// The value parser is a function of its input: any two results that
/// `TscnHelper::parse_rhs` may give for the same text and block type are of the
/// same variant, and hold the same number, flag, text, id or decimals.
pub proof fn lemma_parse_rhs_deterministic(s: Seq<char>, rtype: Seq<char>, a: VarType, b: VarType)
    requires
        is_literal(&a, rhs_literal(s, rtype)),
        is_literal(&b, rhs_literal(s, rtype)),
    ensures
        variant_of(&a) == variant_of(&b),
        a is Num ==> a->Num_0 == b->Num_0,
        a is Bool ==> a->Bool_0 == b->Bool_0,
        a is Float ==> a->Float_0 == b->Float_0,
        a is Str ==> a->Str_0@ == b->Str_0@,
        a is Raw ==> a->Raw_0@ == b->Raw_0@,
        a is Vector ==> a->Vector_0 == b->Vector_0,
        a is SubResource ==> a->SubResource_0 == b->SubResource_0,
        a is ExtResource ==> a->ExtResource_0 == b->ExtResource_0,
        a is Curve ==> a->Curve_0@ == b->Curve_0@,
        a is IntArr ==> a->IntArr_0@ == b->IntArr_0@,
        a is FloatArr ==> a->FloatArr_0@ == b->FloatArr_0@,
        a is VectorArr ==> a->VectorArr_0@ == b->VectorArr_0@,
        a is Rect2 ==> a->Rect2_0@ == b->Rect2_0@,
{
}

} // verus!
