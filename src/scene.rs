//! The scene graph: node entries, the parsed aggregate, and the loader that builds
//! them line by line.
use crate::stack::{
    keys_unique, stack_entries, stack_entry, stack_find, stack_insert, stack_len, stack_new,
    stack_pop,
};
use crate::literal::Literal;
use crate::property::{key_view, line_applied};
use crate::str_helper::StrHelper;
use crate::text::{
    chars_of, equals_text, slice_of, strip, strip_chars, string_of, trail_len, trail_start, trim,
    trim_chars, CharClass,
};
use crate::tscn_helper::{
    attr_value, attributes, count_of, describes, header_kind, header_params, text_of, Node,
    NodeType, TscnHelper,
};
use crate::types::PropertyMap;
use indexmap::IndexMap;
use std::collections::HashMap;
use vstd::prelude::*;
use vstd::utf8::encode_utf8;

verus! {

broadcast use vstd::std_specs::hash::group_hash_axioms;

/// The two running sums of Fletcher's checksum, modulo 255.
pub open spec fn fletcher_sums(b: Seq<u8>) -> (int, int)
    decreases b.len(),
{
    if b.len() == 0 {
        (0, 0)
    } else {
        let (s1, s2) = fletcher_sums(b.drop_last());
        let n1 = (s1 + b.last()) % 255;
        (n1, (s2 + n1) % 255)
    }
}

/// Fletcher-16 of a byte string: the second sum in the high byte, the first in the low.
pub open spec fn fletcher16(b: Seq<u8>) -> u16 {
    let (s1, s2) = fletcher_sums(b);
    (s2 * 256 + s1) as u16
}

/// The canonical path of a stack of ancestors: each name after a `/`.
pub open spec fn stack_path(s: Seq<(Seq<char>, usize)>) -> Seq<char>
    decreases s.len(),
{
    if s.len() == 0 {
        Seq::empty()
    } else {
        stack_path(s.drop_last()) + seq!['/'] + s.last().0
    }
}

/// The 16-bit identity of the node at the top of a stack of ancestors.
pub open spec fn path_hash(s: Seq<(Seq<char>, usize)>) -> u16 {
    fletcher16(encode_utf8(stack_path(s)))
}

pub fn checksum(b: &[u8]) -> (r: u16)
    ensures
        r == fletcher16(b@),
{
    let mut s1: u32 = 0;
    let mut s2: u32 = 0;
    let mut i: usize = 0;
    while i < b.len()
        invariant
            i <= b@.len(),
            s1 < 255 && s2 < 255,
            (s1 as int, s2 as int) == fletcher_sums(b@.take(i as int)),
        decreases b@.len() - i,
    {
        assert(b@.take(i + 1).drop_last() =~= b@.take(i as int));
        s1 = (s1 + b[i] as u32) % 255;
        s2 = (s2 + s1) % 255;
        i = i + 1;
    }
    assert(b@.take(b@.len() as int) =~= b@);
    (s2 * 256 + s1) as u16
}

/// Where the first entry named `k` stands in a stack, searching from `i` on; -1 if none.
pub open spec fn stack_pos_from(s: Seq<(Seq<char>, usize)>, k: Seq<char>, i: int) -> int
    decreases s.len() - i,
{
    if i < 0 || i >= s.len() {
        -1
    } else if s[i].0 == k {
        i
    } else {
        stack_pos_from(s, k, i + 1)
    }
}

pub open spec fn stack_pos(s: Seq<(Seq<char>, usize)>, k: Seq<char>) -> int {
    stack_pos_from(s, k, 0)
}

proof fn lemma_stack_pos_from(s: Seq<(Seq<char>, usize)>, k: Seq<char>, i: int)
    requires
        0 <= i,
    ensures
        stack_pos_from(s, k, i) == -1 || (i <= stack_pos_from(s, k, i) < s.len() && s[stack_pos_from(
            s,
            k,
            i,
        )].0 == k),
        stack_pos_from(s, k, i) == -1 ==> forall|j: int| i <= j < s.len() ==> s[j].0 != k,
    decreases s.len() - i,
{
    if i < s.len() && s[i].0 != k {
        lemma_stack_pos_from(s, k, i + 1);
    }
}

proof fn lemma_stack_pos_at(s: Seq<(Seq<char>, usize)>, k: Seq<char>, start: int, i: int)
    requires
        0 <= start <= i < s.len(),
        s[i].0 == k,
        keys_unique(s),
    ensures
        stack_pos_from(s, k, start) == i,
    decreases i - start,
{
    if start < i {
        lemma_stack_pos_at(s, k, start + 1, i);
    }
}

/// The last segment of a slash-separated path.
pub open spec fn last_seg(p: Seq<char>) -> Seq<char> {
    p.skip(p.len() - trail_len(p, CharClass::IsNot('/')))
}

/// A parent path that declares a root: empty, or `.` before any node.
pub open spec fn declares_root(parent: Seq<char>, depth: nat) -> bool {
    parent.len() == 0 || (parent == "."@ && depth == 0)
}

/// Where in the stack the parent of a node stands: the entry named by the last
/// segment of its parent path, or the root for `.`; -1 if none.
pub open spec fn ancestor(s: Seq<(Seq<char>, usize)>, parent: Seq<char>) -> int {
    if last_seg(parent) == "."@ && s.len() > 0 {
        0
    } else {
        stack_pos(s, last_seg(parent))
    }
}

/// A stack with `k` pushed: an entry already named `k` takes the value in place.
pub open spec fn push_named(s: Seq<(Seq<char>, usize)>, k: Seq<char>, v: usize) -> Seq<
    (Seq<char>, usize),
> {
    let p = stack_pos(s, k);
    if p >= 0 {
        s.update(p, (k, v))
    } else {
        s.push((k, v))
    }
}

/// A fault that stops the parse.
#[derive(Debug, Clone, Copy, PartialEq, Eq, Structural)]
pub enum ParseError {
    /// A node names a parent that is not among its open ancestors.
    MissingParent,
    /// More nodes than ids.
    TooManyNodes,
}

/// A node of the scene tree, or a sub-resource.
#[derive(Debug)]
pub struct NodeEntry {
    pub uuid: u16,
    pub level: usize,
    pub name: String,
    pub rtype: String,
    pub parent_id: usize,
    pub node_type: NodeType,
    pub childrens: Vec<usize>,
    pub properties: PropertyMap,
}

impl Default for NodeEntry {
    fn default() -> (r: Self)
        ensures
            r.uuid == 0 && r.level == 0 && r.parent_id == 0 && r.node_type == NodeType::Node,
            r.name@.len() == 0 && r.rtype@.len() == 0,
            r.childrens@.len() == 0 && r.properties.entries@.len() == 0,
    {
        NodeEntry {
            uuid: 0,
            level: 0,
            name: String::new(),
            rtype: String::new(),
            parent_id: 0,
            node_type: NodeType::Node,
            childrens: Vec::new(),
            properties: PropertyMap::new(),
        }
    }
}

impl NodeEntry {
    /// An empty entry of a given type.
    pub fn new_type(rtype: &String) -> (r: Self)
        ensures
            r.rtype@ == rtype@,
            r.uuid == 0 && r.level == 0 && r.parent_id == 0 && r.node_type == NodeType::Node,
            r.name@.len() == 0 && r.childrens@.len() == 0 && r.properties.entries@.len() == 0,
    {
        NodeEntry { rtype: rtype.clone(), ..NodeEntry::default() }
    }
}

/// `b` is `a` with more children.
pub open spec fn same_but_children(a: NodeEntry, b: NodeEntry) -> bool {
    &&& a.uuid == b.uuid
    &&& a.level == b.level
    &&& a.name == b.name
    &&& a.rtype == b.rtype
    &&& a.parent_id == b.parent_id
    &&& a.node_type == b.node_type
    &&& a.properties == b.properties
}

/// A fresh tree node.
pub open spec fn fresh_node(
    e: NodeEntry,
    name: Seq<char>,
    rtype: Seq<char>,
    level: int,
    parent_id: int,
    uuid: u16,
) -> bool {
    &&& e.name@ == name
    &&& e.rtype@ == rtype
    &&& e.level == level
    &&& e.parent_id == parent_id
    &&& e.uuid == uuid
    &&& e.node_type == NodeType::Node
    &&& e.childrens@.len() == 0
    &&& e.properties.entries@.len() == 0
}

/// What a parse produced.
#[derive(Debug)]
pub struct Tscn {
    pub rtype: String,
    pub nodes: HashMap<usize, NodeEntry>,
    pub resource: PropertyMap,
    pub sub_resources: HashMap<usize, NodeEntry>,
    pub ext_resources: HashMap<usize, Tscn>,
}

/// What declaring a node named `name` of type `rtype` under `parent` does: see
/// `Loader::declare_node`.
pub open spec fn node_declared(
    old: Loader,
    new: Loader,
    name: Seq<char>,
    rtype: Seq<char>,
    parent: Seq<char>,
    r: Result<usize, ParseError>,
) -> bool {
    let st = old.stack();
    let id = old.next_id();
    let nodes = new.node_table();
    if declares_root(parent, st.len()) {
        &&& r == Ok::<usize, ParseError>(id)
        &&& new.next_id() == id + 1
        &&& new.stack() == seq![(name, id)]
        &&& nodes.dom() == old.node_table().dom().insert(id)
        &&& fresh_node(nodes[id], name, rtype, 0, 0, path_hash(new.stack()))
        &&& forall|k: usize| k != id && #[trigger] nodes.contains_key(k) ==> nodes[k]
            == old.node_table()[k]
    } else if ancestor(st, parent) < 0 {
        &&& r == Err::<usize, ParseError>(ParseError::MissingParent)
        &&& new == old
    } else {
        let idx = ancestor(st, parent);
        let pid = st[idx].1;
        &&& r == Ok::<usize, ParseError>(id)
        &&& new.next_id() == id + 1
        &&& new.stack() == push_named(st.take(idx + 1), name, id)
        &&& nodes.dom() == old.node_table().dom().insert(id)
        &&& fresh_node(
            nodes[id],
            name,
            rtype,
            idx + 1,
            pid as int,
            path_hash(new.stack()),
        )
        &&& same_but_children(nodes[pid], old.node_table()[pid])
        &&& nodes[pid].childrens@ == old.node_table()[pid].childrens@.push(id)
        &&& forall|k: usize|
            k != id && k != pid && #[trigger] nodes.contains_key(k) ==> nodes[k]
                == old.node_table()[k]
    }
}

/// A line that changes nothing: blank, `}` or `}]`.
pub open spec fn is_closer(line: Seq<char>) -> bool {
    trim(line).len() == 0 || trim(line) == "}"@ || strip(line, CharClass::Is(' ')) == "}]"@
}

/// A header line, `[...]`.
pub open spec fn is_header(line: Seq<char>) -> bool {
    !is_closer(line) && crate::borders(line, '[', ']')
}

/// An attribute of a header line.
pub open spec fn header_attr(line: Seq<char>, key: Seq<char>) -> Option<Literal> {
    attr_value(attributes(header_params(line)), key)
}

/// What one line does to the tree. A `node` header declares a node, which fails
/// when its parent is not an open ancestor or the ids are used up; nothing else
/// touches the tree or fails.
pub open spec fn line_effect(old: Loader, new: Loader, line: Seq<char>, r: Result<(), ParseError>) -> bool {
    &&& new.wf()
    &&& if is_closer(line) {
        r == Ok::<(), ParseError>(()) && new == old
    } else if is_header(line) && header_kind(line) == "node"@ {
        let name = text_of(header_attr(line, "name"@));
        let rtype = text_of(header_attr(line, "type"@));
        let parent = text_of(header_attr(line, "parent"@));
        if old.next_id() == usize::MAX {
            r == Err::<(), ParseError>(ParseError::TooManyNodes) && new == old
        } else if declares_root(parent, old.stack().len()) || ancestor(old.stack(), parent) >= 0 {
            &&& r == Ok::<(), ParseError>(())
            &&& node_declared(old, new, name, rtype, parent, Ok(old.next_id()))
            &&& old.node_opened(new, old.next_id(), line)
        } else {
            r == Err::<(), ParseError>(ParseError::MissingParent) && new == old
        }
    } else {
        &&& r == Ok::<(), ParseError>(())
        &&& new.stack() == old.stack()
        &&& new.node_table().dom() == old.node_table().dom()
        &&& new.next_id() == old.next_id()
        &&& if is_header(line) {
            old.block_opened(new, line)
        } else {
            old.value_written(new, line)
        }
    }
}

/// `b` is `a` with other properties.
pub open spec fn same_but_props(a: NodeEntry, b: NodeEntry) -> bool {
    &&& a.uuid == b.uuid
    &&& a.level == b.level
    &&& a.name == b.name
    &&& a.rtype == b.rtype
    &&& a.parent_id == b.parent_id
    &&& a.node_type == b.node_type
    &&& a.childrens == b.childrens
}

/// A block type that a header may open besides `node`.
pub open spec fn known_block(kind: Seq<char>) -> bool {
    kind == "gd_scene"@ || kind == "resource"@ || kind == "gd_resource"@ || kind
        == "sub_resource"@ || kind == "ext_resource"@
}

/// The pieces of a text between `\n`s.
pub open spec fn split_lines(s: Seq<char>) -> Seq<Seq<char>>
    decreases s.len(),
{
    if s.len() == 0 {
        seq![Seq::empty()]
    } else if s.last() == '\n' {
        split_lines(s.drop_last()).push(Seq::empty())
    } else {
        let p = split_lines(s.drop_last());
        p.update(p.len() - 1, p.last().push(s.last()))
    }
}

/// A line ended by `\n` without a `\r` before it.
pub open spec fn without_cr(l: Seq<char>) -> Seq<char> {
    if l.len() > 0 && l.last() == '\r' {
        l.drop_last()
    } else {
        l
    }
}

/// The lines of a text: ended by `\n` or `\r\n`, the last one's ending optional.
pub open spec fn text_lines(s: Seq<char>) -> Seq<Seq<char>> {
    let p = split_lines(s);
    let ended = p.drop_last().map_values(|l: Seq<char>| without_cr(l));
    if p.last().len() == 0 {
        ended
    } else {
        ended.push(p.last())
    }
}

/// `tr` runs through the lines `ls` from `tr[0]`, each line succeeding.
pub open spec fn runs(tr: Seq<Loader>, ls: Seq<Seq<char>>) -> bool {
    &&& tr.len() == ls.len() + 1
    &&& forall|j: int| 0 <= j < ls.len() ==> line_effect(tr[j], tr[j + 1], ls[j], Ok(()))
}

/// The texts of a list of string pairs.
pub open spec fn pair_views(s: Seq<(String, String)>) -> Seq<(Seq<char>, Seq<char>)> {
    s.map_values(|p: (String, String)| (p.0@, p.1@))
}

/// `pre`, then at least one more character, starts `g`.
pub open spec fn prefixes(pre: Seq<char>, g: Seq<char>) -> bool {
    pre.len() < g.len() && g.take(pre.len() as int) == pre
}

/// For each mapping in `m` whose prefix starts `g`: its real location and what
/// follows the prefix and one separator character.
pub open spec fn candidate_list(m: Seq<(String, String)>, g: Seq<char>) -> Seq<(Seq<char>, Seq<char>)>
    decreases m.len(),
{
    if m.len() == 0 {
        Seq::empty()
    } else {
        let r = candidate_list(m.drop_last(), g);
        if prefixes(m.last().0@, g) {
            r.push((m.last().1@, g.skip(m.last().0@.len() + 1int)))
        } else {
            r
        }
    }
}

proof fn lemma_split_lines_prefix(s: Seq<char>, i: int, j: int)
    requires
        0 <= i <= j <= s.len(),
    ensures
        split_lines(s.take(j)).len() >= split_lines(s.take(i)).len() >= 1,
        forall|m: int|
            0 <= m < split_lines(s.take(i)).len() - 1 ==> split_lines(s.take(j))[m] == split_lines(
                s.take(i),
            )[m],
    decreases j - i,
{
    if j > i {
        lemma_split_lines_prefix(s, i, j - 1);
        assert(s.take(j).drop_last() =~= s.take(j - 1));
    } else {
        lemma_split_lines_len(s.take(i));
    }
}

proof fn lemma_split_lines_len(s: Seq<char>)
    ensures
        split_lines(s).len() >= 1,
    decreases s.len(),
{
    if s.len() > 0 {
        lemma_split_lines_len(s.drop_last());
    }
}

fn strip_cr(l: &Vec<char>) -> (r: Vec<char>)
    ensures
        r@ == without_cr(l@),
{
    if l.len() > 0 && l[l.len() - 1] == '\r' {
        slice_of(l, 0, l.len() - 1)
    } else {
        slice_of(l, 0, l.len())
    }
}

/// The block type names are distinct.
proof fn lemma_block_names()
    ensures
        "node"@ != "gd_scene"@,
        "node"@ != "resource"@,
        "node"@ != "gd_resource"@,
        "node"@ != "sub_resource"@,
        "node"@ != "ext_resource"@,
        "gd_scene"@ != "resource"@,
        "gd_scene"@ != "gd_resource"@,
        "gd_scene"@ != "sub_resource"@,
        "gd_scene"@ != "ext_resource"@,
        "resource"@ != "gd_resource"@,
        "resource"@ != "sub_resource"@,
        "resource"@ != "ext_resource"@,
        "gd_resource"@ != "sub_resource"@,
        "gd_resource"@ != "ext_resource"@,
        "sub_resource"@ != "ext_resource"@,
{
    reveal_strlit("node");
    reveal_strlit("gd_scene");
    reveal_strlit("resource");
    reveal_strlit("gd_resource");
    reveal_strlit("sub_resource");
    reveal_strlit("ext_resource");
    assert("node"@.len() != "gd_scene"@.len());
    assert("node"@.len() != "resource"@.len());
    assert("node"@.len() != "gd_resource"@.len());
    assert("node"@.len() != "sub_resource"@.len());
    assert("node"@.len() != "ext_resource"@.len());
    assert("gd_scene"@[0] != "resource"@[0]);
    assert("gd_scene"@.len() != "gd_resource"@.len());
    assert("gd_scene"@.len() != "sub_resource"@.len());
    assert("gd_scene"@.len() != "ext_resource"@.len());
    assert("resource"@.len() != "gd_resource"@.len());
    assert("resource"@.len() != "sub_resource"@.len());
    assert("resource"@.len() != "ext_resource"@.len());
    assert("gd_resource"@.len() != "sub_resource"@.len());
    assert("gd_resource"@.len() != "ext_resource"@.len());
    assert("sub_resource"@[0] != "ext_resource"@[0]);
}

impl TscnHelper {
    /// The canonical path of the ancestor stack: each name after a `/`.
    pub fn get_path(ctx: &IndexMap<String, usize>) -> (r: String)
        ensures
            r@ == stack_path(stack_entries(*ctx)),
    {
        let n = stack_len(ctx);
        let mut path: Vec<char> = Vec::new();
        let mut i: usize = 0;
        while i < n
            invariant
                n == stack_entries(*ctx).len(),
                i <= n,
                path@ == stack_path(stack_entries(*ctx).take(i as int)),
            decreases n - i,
        {
            let (key, _) = stack_entry(ctx, i);
            let mut k = chars_of(key.as_str());
            assert(stack_entries(*ctx).take(i + 1).drop_last() =~= stack_entries(*ctx).take(i as int));
            path.push('/');
            path.append(&mut k);
            i = i + 1;
        }
        assert(stack_entries(*ctx).take(n as int) =~= stack_entries(*ctx));
        string_of(&path)
    }

    /// The identity hash of the node at the top of the ancestor stack: Fletcher-16
    /// of the UTF-8 bytes of its canonical path.
    pub fn get_path_hash(ctx: &IndexMap<String, usize>) -> (r: u16)
        ensures
            r == path_hash(stack_entries(*ctx)),
    {
        let p = Self::get_path(ctx);
        checksum(p.as_str().as_bytes())
    }
}

/// The parser state of one file.
pub struct Loader {
    map_path: Vec<(String, String)>,
    ctx: IndexMap<String, usize>,
    context: Option<crate::tscn_helper::Node>,
    current: usize,
    node_id: usize,
    rtype: String,
    resource: PropertyMap,
    sub_resources: HashMap<usize, NodeEntry>,
    nodes: HashMap<usize, NodeEntry>,
    last_prop: Option<String>,
    pending: Vec<(usize, String)>,
}

impl Loader {
    /// The open ancestors, outermost first.
    pub closed spec fn stack(&self) -> Seq<(Seq<char>, usize)> {
        stack_entries(self.ctx)
    }

    /// The node table.
    pub closed spec fn node_table(&self) -> Map<usize, NodeEntry> {
        self.nodes@
    }

    /// The id the next node gets.
    pub closed spec fn next_id(&self) -> usize {
        self.node_id
    }

    /// The block that value lines go to, if any.
    pub closed spec fn open_block(&self) -> Option<Node> {
        self.context
    }

    /// The key of the last assignment, if any.
    pub closed spec fn open_key(&self) -> Option<Seq<char>> {
        key_view(self.last_prop)
    }

    /// Nothing parsed yet: no tree, no open block or key, no sub-resources, an empty
    /// resource store, type `Scene`, and no requests.
    pub open spec fn is_fresh(&self) -> bool {
        &&& self.wf()
        &&& self.next_id() == 0
        &&& self.stack().len() == 0
        &&& self.node_table() == Map::<usize, NodeEntry>::empty()
        &&& self.open_block() is None
        &&& self.open_key() is None
        &&& self.sub_table() == Map::<usize, NodeEntry>::empty()
        &&& self.resource_store().entries@.len() == 0
        &&& self.resource_type() == "Scene"@
        &&& self.requests().len() == 0
    }

    /// The sub-resource table.
    pub closed spec fn sub_table(&self) -> Map<usize, NodeEntry> {
        self.sub_resources@
    }

    /// The properties of the file itself, as a resource.
    pub closed spec fn resource_store(&self) -> PropertyMap {
        self.resource
    }

    /// The type of the file, as a resource.
    pub closed spec fn resource_type(&self) -> Seq<char> {
        self.rtype@
    }

    /// The external resources asked for so far: id and virtual path.
    pub closed spec fn requests(&self) -> Seq<(usize, String)> {
        self.pending@
    }

    /// The prefix mappings, in order.
    pub closed spec fn mappings(&self) -> Seq<(String, String)> {
        self.map_path@
    }

    /// The node that value lines of an open `node` block go to.
    pub closed spec fn current_node(&self) -> usize {
        self.current
    }

    /// `b` has `a`'s blocks other than the tree: mappings, open block, type,
    /// resource store, sub-resources, open key and requests.
    pub open spec fn keeps_blocks(&self, b: Loader) -> bool {
        &&& self.mappings() == b.mappings()
        &&& self.open_block() == b.open_block()
        &&& self.current_node() == b.current_node()
        &&& self.resource_type() == b.resource_type()
        &&& self.resource_store() == b.resource_store()
        &&& self.sub_table() == b.sub_table()
        &&& self.open_key() == b.open_key()
        &&& self.requests() == b.requests()
    }

    /// The node header `line` opened node `id` as the block that value lines go to;
    /// the other blocks are as they were.
    pub open spec fn node_opened(&self, new: Loader, id: usize, line: Seq<char>) -> bool {
        &&& new.open_block() is Some
        &&& describes(new.open_block()->0, header_kind(line), header_params(line))
        &&& new.current_node() == id
        &&& new.mappings() == self.mappings() && new.resource_type() == self.resource_type()
        &&& new.resource_store() == self.resource_store() && new.sub_table() == self.sub_table()
        &&& new.open_key() == self.open_key() && new.requests() == self.requests()
    }

    /// `b` has `a`'s tree shape, mappings, open block, type and requests.
    pub open spec fn same_frame(&self, b: Loader) -> bool {
        &&& self.stack() == b.stack()
        &&& self.next_id() == b.next_id()
        &&& self.mappings() == b.mappings()
        &&& self.open_block() == b.open_block()
        &&& self.current_node() == b.current_node()
        &&& self.resource_type() == b.resource_type()
        &&& self.requests() == b.requests()
    }

    /// What a header other than `node` does: a known block type opens that block (a
    /// sub-resource gets an empty entry, a resource file its type, an external
    /// resource a request); any other header closes the open block and changes
    /// nothing else.
    pub open spec fn block_opened(&self, new: Loader, line: Seq<char>) -> bool {
        let kind = header_kind(line);
        let id = count_of(header_attr(line, "id"@)) as usize;
        let rtype = text_of(header_attr(line, "type"@));
        let path = text_of(header_attr(line, "path"@));
        &&& new.stack() == self.stack() && new.next_id() == self.next_id()
        &&& new.node_table() == self.node_table() && new.mappings() == self.mappings()
        &&& new.current_node() == self.current_node()
        &&& new.resource_store() == self.resource_store() && new.open_key() == self.open_key()
        &&& if known_block(kind) {
            &&& new.open_block() is Some
            &&& describes(new.open_block()->0, kind, header_params(line))
            &&& if kind == "sub_resource"@ {
                &&& new.sub_table().dom() == self.sub_table().dom().insert(id)
                &&& new.sub_table()[id].rtype@ == rtype
                &&& new.sub_table()[id].properties.entries@.len() == 0
                &&& new.sub_table()[id].childrens@.len() == 0
                &&& forall|k: usize|
                    k != id && #[trigger] new.sub_table().contains_key(k) ==> new.sub_table()[k]
                        == self.sub_table()[k]
            } else {
                new.sub_table() == self.sub_table()
            }
            &&& if kind == "gd_resource"@ {
                new.resource_type() == rtype
            } else {
                new.resource_type() == self.resource_type()
            }
            &&& if kind == "ext_resource"@ {
                &&& new.requests().len() == self.requests().len() + 1
                &&& new.requests().drop_last() == self.requests()
                &&& new.requests().last().0 == id
                &&& new.requests().last().1@ == path
            } else {
                new.requests() == self.requests()
            }
        } else {
            &&& new.open_block() is None
            &&& new.sub_table() == self.sub_table()
            &&& new.resource_type() == self.resource_type()
            &&& new.requests() == self.requests()
        }
    }

    /// What a value line does: it is applied to the properties of the open node,
    /// sub-resource or resource; with no such block open nothing changes.
    pub open spec fn value_written(&self, new: Loader, line: Seq<char>) -> bool {
        match self.open_block() {
            Some(n) => {
                let k0 = self.open_key();
                let k1 = new.open_key();
                let rt = n.rtype@;
                let cur = self.current_node();
                if n.node_type == NodeType::Node && self.node_table().contains_key(cur) {
                    &&& self.same_frame(new)
                    &&& new.resource_store() == self.resource_store()
                    &&& new.sub_table() == self.sub_table()
                    &&& new.node_table().dom() == self.node_table().dom()
                    &&& forall|k: usize|
                        k != cur && #[trigger] new.node_table().contains_key(k) ==> new.node_table()[k]
                            == self.node_table()[k]
                    &&& same_but_props(new.node_table()[cur], self.node_table()[cur])
                    &&& line_applied(
                        self.node_table()[cur].properties.entries@,
                        new.node_table()[cur].properties.entries@,
                        k0,
                        k1,
                        line,
                        rt,
                    )
                } else if n.node_type == NodeType::SubResource && self.sub_table().contains_key(
                    n.id,
                ) {
                    &&& self.same_frame(new)
                    &&& new.resource_store() == self.resource_store()
                    &&& new.node_table() == self.node_table()
                    &&& new.sub_table().dom() == self.sub_table().dom()
                    &&& forall|k: usize|
                        k != n.id && #[trigger] new.sub_table().contains_key(k) ==> new.sub_table()[k]
                            == self.sub_table()[k]
                    &&& same_but_props(new.sub_table()[n.id], self.sub_table()[n.id])
                    &&& line_applied(
                        self.sub_table()[n.id].properties.entries@,
                        new.sub_table()[n.id].properties.entries@,
                        k0,
                        k1,
                        line,
                        rt,
                    )
                } else if n.node_type == NodeType::Resource {
                    &&& self.same_frame(new)
                    &&& new.node_table() == self.node_table() && new.sub_table() == self.sub_table()
                    &&& line_applied(
                        self.resource_store().entries@,
                        new.resource_store().entries@,
                        k0,
                        k1,
                        line,
                        rt,
                    )
                } else {
                    new == *self
                }
            },
            None => new == *self,
        }
    }

    /// Ancestors are known nodes, and the node ids are `0..next_id`.
    pub closed spec fn wf(&self) -> bool {
        &&& keys_unique(self.stack())
        &&& forall|i: int| 0 <= i < self.stack().len() ==> #[trigger] self.stack()[i].1 < self.node_id
        &&& forall|id: usize| self.nodes@.contains_key(id) <==> id < self.node_id
    }

    /// A loader with no mappings that has parsed nothing.
    pub fn new() -> (r: Self)
        ensures
            r.is_fresh(),
            r.mappings().len() == 0,
    {
        let r = Loader {
            map_path: Vec::new(),
            ctx: stack_new(),
            context: None,
            current: 0,
            node_id: 0,
            rtype: String::from_str("Scene"),
            resource: PropertyMap::new(),
            sub_resources: HashMap::new(),
            nodes: HashMap::new(),
            last_prop: None,
            pending: Vec::new(),
        };
        assert(r.nodes@ =~= Map::<usize, NodeEntry>::empty());
        assert(r.sub_resources@ =~= Map::<usize, NodeEntry>::empty());
        r
    }

    /// Adds a mapping from a virtual prefix to a real location, after the others.
    pub fn register_path(&mut self, gdpath: String, syspath: String)
        requires
            old(self).wf(),
        ensures
            final(self).wf(),
            final(self).stack() == old(self).stack(),
            final(self).next_id() == old(self).next_id(),
            final(self).node_table() == old(self).node_table(),
            final(self).open_block() == old(self).open_block(),
            final(self).current_node() == old(self).current_node(),
            final(self).resource_type() == old(self).resource_type(),
            final(self).resource_store() == old(self).resource_store(),
            final(self).sub_table() == old(self).sub_table(),
            final(self).open_key() == old(self).open_key(),
            final(self).requests() == old(self).requests(),
            final(self).mappings().len() == old(self).mappings().len() + 1,
            final(self).mappings().last().0@ == gdpath@,
            final(self).mappings().last().1@ == syspath@,
            final(self).mappings().drop_last() == old(self).mappings(),
    {
        self.map_path.push((gdpath, syspath));
        assert(self.map_path@.drop_last() =~= old(self).map_path@);
    }

    /// A loader that has parsed nothing, with the same mappings and nothing else.
    pub fn clone_loader(&self) -> (r: Self)
        ensures
            r.is_fresh(),
            r.mappings().len() == self.mappings().len(),
            forall|i: int|
                0 <= i < self.mappings().len() ==> (#[trigger] r.mappings()[i]).0@ == self.mappings()[i].0@
                    && r.mappings()[i].1@ == self.mappings()[i].1@,
    {
        let mut loader = Loader::new();
        let mut i: usize = 0;
        while i < self.map_path.len()
            invariant
                loader.is_fresh(),
                i <= self.map_path@.len(),
                loader.map_path@.len() == i,
                forall|j: int|
                    0 <= j < i ==> (#[trigger] loader.map_path@[j]).0@ == self.map_path@[j].0@
                        && loader.map_path@[j].1@ == self.map_path@[j].1@,
            decreases self.map_path@.len() - i,
        {
            let a = self.map_path[i].0.clone();
            let b = self.map_path[i].1.clone();
            loader.map_path.push((a, b));
            i = i + 1;
        }
        loader
    }

    /// For each mapping, in order, whose prefix followed by one more character
    /// starts `gdpath`: its real location and the rest of `gdpath` after that
    /// character. The first of them that exists is where the file is.
    pub fn candidates(&self, gdpath: &String) -> (r: Vec<(String, String)>)
        ensures
            pair_views(r@) == candidate_list(self.mappings(), gdpath@),
    {
        let g = chars_of(gdpath.as_str());
        let mut out: Vec<(String, String)> = Vec::new();
        let mut i: usize = 0;
        while i < self.map_path.len()
            invariant
                i <= self.map_path@.len(),
                g@ == gdpath@,
                pair_views(out@) == candidate_list(self.map_path@.take(i as int), gdpath@),
            decreases self.map_path@.len() - i,
        {
            assert(self.map_path@.take(i + 1).drop_last() =~= self.map_path@.take(i as int));
            let pre = chars_of(self.map_path[i].0.as_str());
            if pre.len() < g.len() && crate::text::is_text(&g, 0, pre.len(), self.map_path[i].0.as_str()) {
                assert(g@.subrange(0, pre@.len() as int) =~= g@.take(pre@.len() as int));
                let rest = slice_of(&g, pre.len() + 1, g.len());
                assert(rest@ =~= g@.skip(pre@.len() + 1int));
                let ghost before = out@;
                out.push((self.map_path[i].1.clone(), string_of(&rest)));
                assert(pair_views(out@) =~= pair_views(before).push((self.map_path@[i as int].1@, rest@)));
            } else {
                assert(g@.subrange(0, pre@.len() as int) =~= g@.take(pre@.len() as int)) by {
                    if pre@.len() < g@.len() {
                    }
                }
            }
            i = i + 1;
        }
        assert(self.map_path@.take(i as int) =~= self.map_path@);
        out
    }

    /// The external resources that headers asked for: id and virtual path.
    pub fn pending(&self) -> (r: &Vec<(usize, String)>)
        ensures
            r@ == self.requests(),
    {
        &self.pending
    }

    fn parse_header(&mut self, line: &str) -> (r: Result<(), ParseError>)
        requires
            old(self).wf(),
            is_header(line@),
        ensures
            line_effect(*old(self), *final(self), line@, r),
            final(self).mappings() == old(self).mappings(),
    {
        let (kind, attrs) = TscnHelper::parse_node(line);
        let node = TscnHelper::get_node(kind, attrs);
        let k = chars_of(kind);
        if equals_text(&k, "node") {
            if self.node_id == usize::MAX {
                return Err(ParseError::TooManyNodes);
            }
            let ghost before = *self;
            return match self.declare_node(&node.name, &node.rtype, &node.parent) {
                Ok(id) => {
                    let ghost mid = *self;
                    self.current = id;
                    self.context = Some(node);
                    assert(self.stack() == mid.stack());
                    assert(self.node_table() == mid.node_table());
                    Ok(())
                },
                Err(e) => Err(e),
            };
        }
        proof {
            lemma_block_names();
        }
        if !(equals_text(&k, "gd_scene") || equals_text(&k, "resource") || equals_text(
            &k,
            "gd_resource",
        ) || equals_text(&k, "sub_resource") || equals_text(&k, "ext_resource")) {
            self.context = None;
            return Ok(());
        }
        let ghost before = *self;
        match node.node_type {
            NodeType::SubResource => {
                self.sub_resources.insert(node.id, NodeEntry::new_type(&node.rtype));
            },
            NodeType::GdResource => {
                self.rtype = node.rtype.clone();
            },
            NodeType::ExtResource => {
                self.pending.push((node.id, node.path.clone()));
            },
            _ => {},
        }
        self.context = Some(node);
        proof {
            if k@ == "sub_resource"@ {
                assert(self.sub_resources@.dom() =~= before.sub_resources@.dom().insert(node.id));
            }
            if k@ == "ext_resource"@ {
                assert(self.pending@.drop_last() =~= before.pending@);
            }
        }
        Ok(())
    }

    fn parse_value_line(&mut self, line: &str)
        requires
            old(self).wf(),
        ensures
            final(self).wf(),
            final(self).stack() == old(self).stack(),
            final(self).node_table().dom() == old(self).node_table().dom(),
            final(self).next_id() == old(self).next_id(),
            final(self).mappings() == old(self).mappings(),
            old(self).value_written(*final(self), line@),
    {
        let (kind, id, rtype) = match &self.context {
            None => {
                return;
            },
            Some(n) => (n.node_type, n.id, n.rtype.clone()),
        };
        match kind {
            NodeType::Node => {
                let cur = self.current;
                if self.nodes.contains_key(&cur) {
                    let mut e = self.nodes.remove(&cur).unwrap();
                    e.properties.apply_line(line, &rtype, &mut self.last_prop);
                    self.nodes.insert(cur, e);
                    assert(self.nodes@.dom() =~= old(self).nodes@.dom());
                }
            },
            NodeType::SubResource => {
                if self.sub_resources.contains_key(&id) {
                    let mut e = self.sub_resources.remove(&id).unwrap();
                    e.properties.apply_line(line, &rtype, &mut self.last_prop);
                    self.sub_resources.insert(id, e);
                    assert(self.sub_resources@.dom() =~= old(self).sub_resources@.dom());
                }
            },
            NodeType::Resource => {
                self.resource.apply_line(line, &rtype, &mut self.last_prop);
            },
            _ => {},
        }
    }

    /// Reads one line: a header opens a block (and a `node` header adds a node to the
    /// tree); a value line writes into the open block's properties.
    pub fn parse_line(&mut self, line: &str) -> (r: Result<(), ParseError>)
        requires
            old(self).wf(),
        ensures
            line_effect(*old(self), *final(self), line@, r),
            final(self).mappings() == old(self).mappings(),
    {
        let chars = chars_of(line);
        let t = trim_chars(&chars);
        if t.len() == 0 || equals_text(&t, "}") || equals_text(
            &strip_chars(&chars, CharClass::Is(' ')),
            "}]",
        ) {
            return Ok(());
        }
        if line.check_borders('[', ']') {
            return self.parse_header(line);
        }
        self.parse_value_line(line);
        Ok(())
    }

    /// Reads a whole text line by line and hands over what it built. The loader then
    /// starts over with an empty tree; it keeps its mappings and the requests for
    /// external resources. The first line that fails stops the parse.
    pub fn parse_tscn(&mut self, tscn: &str) -> (r: Result<Tscn, ParseError>)
        requires
            old(self).wf(),
        ensures
            final(self).wf(),
            final(self).mappings() == old(self).mappings(),
            r is Ok ==> final(self).next_id() == 0 && final(self).stack().len() == 0,
            match r {
                Ok(t) => exists|tr: Seq<Loader>|
                    {
                        &&& runs(tr, text_lines(tscn@))
                        &&& tr[0] == *old(self)
                        &&& t.nodes@ == tr.last().node_table()
                        &&& t.rtype@ == tr.last().resource_type()
                        &&& t.sub_resources@ == tr.last().sub_table()
                        &&& t.resource == tr.last().resource_store()
                        &&& t.ext_resources@ == Map::<usize, Tscn>::empty()
                        &&& final(self).requests() == tr.last().requests()
                    },
                Err(e) => exists|tr: Seq<Loader>, k: int|
                    {
                        &&& 0 <= k < text_lines(tscn@).len()
                        &&& runs(tr, text_lines(tscn@).take(k))
                        &&& tr[0] == *old(self)
                        &&& line_effect(tr.last(), tr.last(), text_lines(tscn@)[k], Err(e))
                    },
            },
    {
        let chars = chars_of(tscn);
        let n = chars.len();
        let mut cur: Vec<char> = Vec::new();
        let ghost mut tr: Seq<Loader> = seq![*self];
        let ghost mut done: Seq<Seq<char>> = Seq::empty();
        let mut i: usize = 0;
        assert(chars@.take(0) =~= Seq::<char>::empty());
        assert(done.map_values(|l: Seq<char>| without_cr(l)) =~= Seq::<Seq<char>>::empty());
        while i < n
            invariant
                n == chars@.len(),
                chars@ == tscn@,
                i <= n,
                self.wf(),
                self.mappings() == old(self).mappings(),
                tr.len() >= 1,
                tr[0] == *old(self),
                tr.last() == *self,
                split_lines(chars@.take(i as int)) == done.push(cur@),
                runs(tr, done.map_values(|l: Seq<char>| without_cr(l))),
            decreases n - i,
        {
            let c = chars[i];
            assert(chars@.take(i + 1).drop_last() =~= chars@.take(i as int));
            if c == '\n' {
                let line = string_of(&strip_cr(&cur));
                let ghost prev = *self;
                let res = self.parse_line(line.as_str());
                proof {
                    lemma_split_lines_prefix(chars@, i + 1, n as int);
                    let lines = text_lines(tscn@);
                    let p = split_lines(chars@);
                    assert(split_lines(chars@.take(i + 1)) == done.push(cur@).push(Seq::empty()));
                    assert(chars@.take(n as int) =~= chars@);
                    assert(p.len() >= done.len() + 2);
                    assert(lines.take(done.len() as int) =~= done.map_values(
                        |l: Seq<char>| without_cr(l),
                    )) by {
                        assert forall|m: int| 0 <= m < done.len() implies #[trigger] lines[m]
                            == without_cr(done[m]) by {
                            assert(p[m] == done.push(cur@).push(Seq::empty())[m]);
                        }
                    }
                    assert(lines[done.len() as int] == without_cr(cur@)) by {
                        assert(p[done.len() as int] == done.push(cur@).push(Seq::empty())[done.len() as int]);
                    }
                }
                match res {
                    Err(e) => {
                        proof {
                            assert(*self == prev);
                            let k = done.len() as int;
                            assert(runs(tr, text_lines(tscn@).take(k)));
                        }
                        return Err(e);
                    },
                    Ok(()) => {},
                }
                proof {
                    let ghost old_done = done;
                    tr = tr.push(*self);
                    done = done.push(cur@);
                    assert(done.map_values(|l: Seq<char>| without_cr(l)) =~= old_done.map_values(
                        |l: Seq<char>| without_cr(l),
                    ).push(without_cr(cur@)));
                }
                cur = Vec::new();
            } else {
                cur.push(c);
            }
            i = i + 1;
        }
        assert(chars@.take(n as int) =~= chars@);
        if cur.len() > 0 {
            let line = string_of(&cur);
            let ghost prev = *self;
            let res = self.parse_line(line.as_str());
            proof {
                assert(text_lines(tscn@) =~= done.map_values(|l: Seq<char>| without_cr(l)).push(
                    cur@,
                ));
            }
            match res {
                Err(e) => {
                    proof {
                        assert(*self == prev);
                        let k = done.len() as int;
                        assert(text_lines(tscn@).take(k) =~= done.map_values(
                            |l: Seq<char>| without_cr(l),
                        ));
                    }
                    return Err(e);
                },
                Ok(()) => {},
            }
            proof {
                tr = tr.push(*self);
            }
        } else {
            assert(text_lines(tscn@) =~= done.map_values(|l: Seq<char>| without_cr(l)));
        }
        let ghost last = *self;
        let mut nodes = HashMap::new();
        std::mem::swap(&mut nodes, &mut self.nodes);
        let mut sub_resources = HashMap::new();
        std::mem::swap(&mut sub_resources, &mut self.sub_resources);
        let mut resource = PropertyMap::new();
        std::mem::swap(&mut resource, &mut self.resource);
        let mut rtype = String::from_str("Scene");
        std::mem::swap(&mut rtype, &mut self.rtype);
        self.ctx = stack_new();
        self.node_id = 0;
        self.context = None;
        self.current = 0;
        self.last_prop = None;
        assert(self.nodes@.dom() =~= Set::<usize>::empty());
        let t = Tscn { rtype, nodes, resource, sub_resources, ext_resources: HashMap::new() };
        assert(runs(tr, text_lines(tscn@)));
        assert(tr.last() == last);
        assert(t.nodes@ == last.node_table());
        assert(self.requests() == last.requests());
        assert(t.rtype@ == last.resource_type());
        assert(t.ext_resources@ == Map::<usize, Tscn>::empty());
        assert({
            &&& runs(tr, text_lines(tscn@))
            &&& tr[0] == *old(self)
            &&& t.nodes@ == tr.last().node_table()
            &&& t.rtype@ == tr.last().resource_type()
            &&& t.sub_resources@ == tr.last().sub_table()
            &&& t.resource == tr.last().resource_store()
            &&& t.ext_resources@ == Map::<usize, Tscn>::empty()
            &&& self.requests() == tr.last().requests()
        });
        Ok(t)
    }

    /// Adds a node to the tree under the ancestor that its parent path names, and
    /// makes it the innermost open ancestor; its level is that ancestor's index in
    /// the stack plus one. A parent path that names no open ancestor is a fault, and
    /// nothing changes. The stack holds one entry per name: a node named like an
    /// ancestor that stays open takes that ancestor's entry in place, so its level
    /// and the entry's index then differ.
    pub fn declare_node(&mut self, name: &String, rtype: &String, parent: &String) -> (r: Result<
        usize,
        ParseError,
    >)
        requires
            old(self).wf(),
            old(self).next_id() < usize::MAX,
        ensures
            final(self).wf(),
            node_declared(*old(self), *final(self), name@, rtype@, parent@, r),
            old(self).keeps_blocks(*final(self)),
    {
        let id = self.node_id;
        let p = chars_of(parent.as_str());
        proof {
            reveal_strlit(".");
        }
        let depth = stack_len(&self.ctx);
        let is_dot = p.len() == 1 && p[0] == '.';
        assert("."@.len() == 1 && "."@[0] == '.');
        if is_dot {
            assert(p@ =~= "."@);
        }
        if p.len() == 0 || (is_dot && depth == 0) {
            self.ctx = stack_new();
            stack_insert(&mut self.ctx, name.clone(), id);
            assert(self.stack() =~= seq![(name@, id)]);
            let uuid = TscnHelper::get_path_hash(&self.ctx);
            let entry = NodeEntry {
                uuid,
                level: 0,
                name: name.clone(),
                rtype: rtype.clone(),
                parent_id: 0,
                node_type: NodeType::Node,
                childrens: Vec::new(),
                properties: PropertyMap::new(),
            };
            self.nodes.insert(id, entry);
            self.node_id = id + 1;
            assert(self.nodes@.dom() =~= old(self).nodes@.dom().insert(id));
            return Ok(id);
        }
        let t = trail_start(&p, p.len(), CharClass::IsNot('/'));
        let seg = slice_of(&p, t, p.len());
        assert(p@.take(p@.len() as int) =~= p@);
        assert(seg@ =~= last_seg(p@));
        let seg_dot = seg.len() == 1 && seg[0] == '.';
        assert("."@.len() == 1 && "."@[0] == '.');
        if seg_dot {
            assert(seg@ =~= "."@);
        }
        let found: Option<(usize, usize)> = if seg_dot && depth > 0 {
            let (_, v) = stack_entry(&self.ctx, 0);
            Some((0, v))
        } else {
            stack_find(&self.ctx, string_of(&seg).as_str())
        };
        proof {
            lemma_stack_pos_from(self.stack(), seg@, 0);
            if let Some((i, v)) = found {
                if !(seg_dot && depth > 0) {
                    lemma_stack_pos_at(self.stack(), seg@, 0, i as int);
                }
            }
        }
        let (idx, pid) = match found {
            None => {
                return Err(ParseError::MissingParent);
            },
            Some(f) => f,
        };
        assert(idx as int == ancestor(old(self).stack(), parent@));
        assert(old(self).stack()[idx as int].1 == pid);
        assert(old(self).nodes@.contains_key(pid));
        let ghost st = self.stack();
        let mut ctx = stack_new();
        std::mem::swap(&mut ctx, &mut self.ctx);
        let mut n = depth;
        while n > idx + 1
            invariant
                idx < n <= depth,
                depth == st.len(),
                stack_entries(ctx) == st.take(n as int),
            decreases n,
        {
            stack_pop(&mut ctx);
            assert(st.take(n as int).drop_last() =~= st.take(n - 1));
            n = n - 1;
        }
        self.ctx = ctx;
        let ghost kept = self.stack();
        assert(keys_unique(kept));
        proof {
            lemma_stack_pos_from(kept, name@, 0);
            let q = stack_pos(kept, name@);
            if q >= 0 {
                lemma_stack_pos_at(kept, name@, 0, q);
            }
        }
        stack_insert(&mut self.ctx, name.clone(), id);
        assert(self.stack() == push_named(kept, name@, id));
        let uuid = TscnHelper::get_path_hash(&self.ctx);
        let mut parent_entry = self.nodes.remove(&pid).unwrap();
        let entry = NodeEntry {
            uuid,
            level: idx + 1,
            name: name.clone(),
            rtype: rtype.clone(),
            parent_id: pid,
            node_type: NodeType::Node,
            childrens: Vec::new(),
            properties: PropertyMap::new(),
        };
        parent_entry.childrens.push(id);
        self.nodes.insert(pid, parent_entry);
        self.nodes.insert(id, entry);
        self.node_id = id + 1;
        assert(self.nodes@.dom() =~= old(self).nodes@.dom().insert(id));
        Ok(id)
    }
}

impl Tscn {
    /// Stores a resolved external resource under its id. One that could not be
    /// resolved leaves no entry.
    pub fn attach_ext_resource(&mut self, id: usize, resolved: Option<Tscn>)
        ensures
            match resolved {
                Some(t) => final(self).ext_resources@ == old(self).ext_resources@.insert(id, t),
                None => final(self).ext_resources@ == old(self).ext_resources@,
            },
            final(self).nodes@ == old(self).nodes@,
            final(self).rtype@ == old(self).rtype@,
            final(self).sub_resources@ == old(self).sub_resources@,
            final(self).resource == old(self).resource,
    {
        if let Some(t) = resolved {
            self.ext_resources.insert(id, t);
        }
    }
}

/// Ancestor stacks with the same names in the same order have the same path
/// hash, whatever their ids.
pub proof fn lemma_same_names_same_hash(a: Seq<(Seq<char>, usize)>, b: Seq<(Seq<char>, usize)>)
    requires
        a.len() == b.len(),
        forall|i: int| 0 <= i < a.len() ==> #[trigger] a[i].0 == b[i].0,
    ensures
        stack_path(a) == stack_path(b),
        path_hash(a) == path_hash(b),
    decreases a.len(),
{
    if a.len() > 0 {
        lemma_same_names_same_hash(a.drop_last(), b.drop_last());
        assert(a.last().0 == b.last().0);
    }
}

/// No name in the stack holds a `/`.
pub open spec fn plain_names(a: Seq<(Seq<char>, usize)>) -> bool {
    forall|i: int, j: int| 0 <= i < a.len() && 0 <= j < a[i].0.len() ==> #[trigger] a[i].0[j] != '/'
}

proof fn lemma_trail_after_slash(x: Seq<char>, y: Seq<char>)
    requires
        forall|j: int| 0 <= j < y.len() ==> y[j] != '/',
    ensures
        trail_len(x + seq!['/'] + y, CharClass::IsNot('/')) == y.len(),
    decreases y.len(),
{
    let w = x + seq!['/'] + y;
    if y.len() == 0 {
        assert(w.last() == '/');
    } else {
        assert(w.last() == y.last());
        assert(w.drop_last() =~= x + seq!['/'] + y.drop_last());
        lemma_trail_after_slash(x, y.drop_last());
    }
}

/// Stacks whose names hold no `/` have the same canonical path only when they have
/// the same names in the same order: stacks that differ in a name or in order give
/// different inputs to the path hash.
pub proof fn lemma_path_determines_names(a: Seq<(Seq<char>, usize)>, b: Seq<(Seq<char>, usize)>)
    requires
        plain_names(a),
        plain_names(b),
        stack_path(a) == stack_path(b),
    ensures
        a.len() == b.len(),
        forall|i: int| 0 <= i < a.len() ==> #[trigger] a[i].0 == b[i].0,
    decreases a.len() + b.len(),
{
    if a.len() == 0 || b.len() == 0 {
        if a.len() > 0 {
            assert(stack_path(a).len() > 0);
        }
        if b.len() > 0 {
            assert(stack_path(b).len() > 0);
        }
    } else {
        let pa = stack_path(a.drop_last());
        let pb = stack_path(b.drop_last());
        let la = a.last().0;
        let lb = b.last().0;
        assert forall|j: int| 0 <= j < la.len() implies la[j] != '/' by {
            assert(a[a.len() - 1].0[j] != '/');
        }
        assert forall|j: int| 0 <= j < lb.len() implies lb[j] != '/' by {
            assert(b[b.len() - 1].0[j] != '/');
        }
        lemma_trail_after_slash(pa, la);
        lemma_trail_after_slash(pb, lb);
        let w = stack_path(a);
        assert(la.len() == lb.len());
        assert(la =~= w.skip(w.len() - la.len()));
        assert(lb =~= w.skip(w.len() - lb.len()));
        assert(pa =~= w.take(w.len() - la.len() - 1));
        assert(pb =~= w.take(w.len() - lb.len() - 1));
        assert(plain_names(a.drop_last()));
        assert(plain_names(b.drop_last()));
        lemma_path_determines_names(a.drop_last(), b.drop_last());
        assert forall|i: int| 0 <= i < a.len() implies #[trigger] a[i].0 == b[i].0 by {
            if i < a.len() - 1 {
                assert(a.drop_last()[i] == a[i]);
                assert(b.drop_last()[i] == b[i]);
            }
        }
    }
}

/// An `ext_resource` header only records a request for its id and virtual path:
/// the tree, the sub-resources, the resource store and the type stay, and the
/// line cannot fail. Whether the path resolves is decided after the parse, and a
/// resource that does not resolve is left out (`Tscn::attach_ext_resource`).
pub proof fn lemma_ext_header_records_request(
    old: Loader,
    new: Loader,
    line: Seq<char>,
    r: Result<(), ParseError>,
)
    requires
        line_effect(old, new, line, r),
        is_header(line),
        header_kind(line) == "ext_resource"@,
    ensures
        r == Ok::<(), ParseError>(()),
        new.node_table() == old.node_table(),
        new.next_id() == old.next_id(),
        new.stack() == old.stack(),
        new.sub_table() == old.sub_table(),
        new.resource_store() == old.resource_store(),
        new.resource_type() == old.resource_type(),
        new.requests().len() == old.requests().len() + 1,
        new.requests().drop_last() == old.requests(),
        new.requests().last().0 == count_of(header_attr(line, "id"@)) as usize,
        new.requests().last().1@ == text_of(header_attr(line, "path"@)),
{
    lemma_block_names();
}

/// Re-ascension: a node whose parent path names an open ancestor closes every
/// ancestor opened after that one. The node hangs under that ancestor, its level is
/// the ancestor's index plus one, and the open ancestors become those up to it
/// followed by the node.
pub proof fn lemma_reascension(old: Loader, new: Loader, line: Seq<char>, r: Result<(), ParseError>)
    requires
        line_effect(old, new, line, r),
        is_header(line),
        header_kind(line) == "node"@,
        old.next_id() < usize::MAX,
        !declares_root(text_of(header_attr(line, "parent"@)), old.stack().len()),
        ancestor(old.stack(), text_of(header_attr(line, "parent"@))) >= 0,
        stack_pos(
            old.stack().take(ancestor(old.stack(), text_of(header_attr(line, "parent"@))) + 1),
            text_of(header_attr(line, "name"@)),
        ) == -1,
    ensures
        ({
            let idx = ancestor(old.stack(), text_of(header_attr(line, "parent"@)));
            let pid = old.stack()[idx].1;
            let id = old.next_id();
            &&& r == Ok::<(), ParseError>(())
            &&& new.stack() == old.stack().take(idx + 1).push((text_of(header_attr(line, "name"@)), id))
            &&& new.node_table()[id].parent_id == pid
            &&& new.node_table()[id].level == idx + 1
            &&& new.node_table()[pid].childrens@ == old.node_table()[pid].childrens@.push(id)
        }),
{
}

/// Only `node` headers change the shape of the tree: after any other line every
/// node keeps its name, type, uuid, level, parent and children, and no node comes
/// or goes; at most the open node's properties change.
pub proof fn lemma_other_lines_keep_tree(old: Loader, new: Loader, line: Seq<char>, r: Result<(), ParseError>)
    requires
        line_effect(old, new, line, r),
        !(is_header(line) && header_kind(line) == "node"@),
    ensures
        r == Ok::<(), ParseError>(()),
        new.stack() == old.stack(),
        new.next_id() == old.next_id(),
        new.node_table().dom() == old.node_table().dom(),
        forall|k: usize|
            #[trigger] old.node_table().contains_key(k) ==> same_but_props(
                new.node_table()[k],
                old.node_table()[k],
            ),
{
}

} // verus!
