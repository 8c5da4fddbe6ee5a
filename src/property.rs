//! The path-addressed property store: `a/b/c` names the value `c` in the map `b`
//! in the map `a`.
use crate::literal::is_literal;
use crate::text::{chars_of, run_end, run_len, slice_of, string_of, strip, strip_end, trim, CharClass};
use crate::tscn_helper::{rhs_literal, split_once, TscnHelper};
use crate::types::{PropertyMap, VarType};
use vstd::prelude::*;

verus! {

/// Where the first entry named `k` stands, searching from `i` on; -1 if none.
pub open spec fn find_from(s: Seq<(String, VarType)>, k: Seq<char>, i: int) -> int
    decreases s.len() - i,
{
    if i < 0 || i >= s.len() {
        -1
    } else if s[i].0@ == k {
        i
    } else {
        find_from(s, k, i + 1)
    }
}

pub proof fn lemma_find_from(s: Seq<(String, VarType)>, k: Seq<char>, i: int)
    requires
        0 <= i,
    ensures
        find_from(s, k, i) == -1 || (i <= find_from(s, k, i) < s.len() && s[find_from(s, k, i)].0@
            == k),
        forall|j: int|
            i <= j < s.len() && (find_from(s, k, i) == -1 || j < find_from(s, k, i)) ==> s[j].0@
                != k,
    decreases s.len() - i,
{
    if i < s.len() && s[i].0@ != k {
        lemma_find_from(s, k, i + 1);
    }
}

/// Where the first entry named `k` stands; -1 if none.
pub open spec fn key_pos(s: Seq<(String, VarType)>, k: Seq<char>) -> int {
    find_from(s, k, 0)
}

/// The value of the first entry named `k`.
pub open spec fn lookup(s: Seq<(String, VarType)>, k: Seq<char>) -> Option<VarType> {
    if key_pos(s, k) >= 0 {
        Some(s[key_pos(s, k)].1)
    } else {
        None
    }
}

/// Length of the first segment of a path.
pub open spec fn seg_len(path: Seq<char>) -> int {
    run_len(path, CharClass::IsNot('/')) as int
}

/// The value at a path: each segment before the last must name a map.
pub open spec fn lookup_path(s: Seq<(String, VarType)>, path: Seq<char>) -> Option<VarType>
    decreases path.len(),
{
    let k = seg_len(path);
    if k >= path.len() {
        lookup(s, path)
    } else {
        match lookup(s, path.take(k)) {
            Some(VarType::Dict(inner)) => lookup_path(inner.entries@, path.skip(k + 1)),
            _ => None,
        }
    }
}

/// `new` is `old` with key `k` set to `v`: the first entry named `k` takes the
/// value, or a new entry goes last.
pub open spec fn set_key(
    old: Seq<(String, VarType)>,
    new: Seq<(String, VarType)>,
    k: Seq<char>,
    v: VarType,
) -> bool {
    let p = key_pos(old, k);
    if p >= 0 {
        &&& new.len() == old.len()
        &&& new[p].0@ == k
        &&& new[p].1 == v
        &&& forall|j: int| 0 <= j < old.len() && j != p ==> new[j] == old[j]
    } else {
        &&& new.len() == old.len() + 1
        &&& new.last().0@ == k
        &&& new.last().1 == v
        &&& forall|j: int| 0 <= j < old.len() ==> new[j] == old[j]
    }
}

/// `new` is `old` with the entry at `p` replaced by one of the same name.
pub open spec fn same_but(old: Seq<(String, VarType)>, new: Seq<(String, VarType)>, p: int) -> bool {
    &&& new.len() == old.len()
    &&& new[p].0 == old[p].0
    &&& forall|j: int| 0 <= j < old.len() && j != p ==> new[j] == old[j]
}

/// `new` is `old` after writing `v` at `path`. A missing map on the way is made;
/// an entry on the way that holds something else than a map stops the write.
pub open spec fn inserted(
    old: Seq<(String, VarType)>,
    new: Seq<(String, VarType)>,
    path: Seq<char>,
    v: VarType,
) -> bool
    decreases path.len(),
{
    let k = seg_len(path);
    if k >= path.len() {
        set_key(old, new, path, v)
    } else {
        let seg = path.take(k);
        let rest = path.skip(k + 1);
        let p = key_pos(old, seg);
        if p >= 0 {
            match old[p].1 {
                VarType::Dict(inner) => same_but(old, new, p) && new[p].1 is Dict && inserted(
                    inner.entries@,
                    new[p].1->Dict_0.entries@,
                    rest,
                    v,
                ),
                _ => new == old,
            }
        } else {
            &&& new.len() == old.len() + 1
            &&& forall|j: int| 0 <= j < old.len() ==> new[j] == old[j]
            &&& new.last().0@ == seg
            &&& new.last().1 is Dict
            &&& inserted(Seq::empty(), new.last().1->Dict_0.entries@, rest, v)
        }
    }
}

/// `new` is `old` with key `key` set to `v` in the map at `path`; unchanged when no
/// map stands there.
pub open spec fn put_at(
    old: Seq<(String, VarType)>,
    new: Seq<(String, VarType)>,
    path: Seq<char>,
    key: Seq<char>,
    v: VarType,
) -> bool
    decreases path.len(),
{
    let k = seg_len(path);
    let seg = if k >= path.len() {
        path
    } else {
        path.take(k)
    };
    let p = key_pos(old, seg);
    if p >= 0 && old[p].1 is Dict {
        let inner = old[p].1->Dict_0.entries@;
        &&& same_but(old, new, p)
        &&& new[p].1 is Dict
        &&& if k >= path.len() {
            set_key(inner, new[p].1->Dict_0.entries@, key, v)
        } else {
            put_at(inner, new[p].1->Dict_0.entries@, path.skip(k + 1), key, v)
        }
    } else {
        new == old
    }
}

/// No two entries have the same name.
pub open spec fn keys_distinct(s: Seq<(String, VarType)>) -> bool {
    forall|i: int, j: int|
        0 <= i < s.len() && 0 <= j < s.len() && i != j ==> #[trigger] s[i].0@ != #[trigger] s[j].0@
}

proof fn lemma_same_names_distinct(old: Seq<(String, VarType)>, new: Seq<(String, VarType)>)
    requires
        keys_distinct(old),
        new.len() == old.len(),
        forall|i: int| 0 <= i < old.len() ==> #[trigger] new[i].0@ == old[i].0@,
    ensures
        keys_distinct(new),
{
    assert forall|i: int, j: int|
        0 <= i < new.len() && 0 <= j < new.len() && i != j implies #[trigger] new[i].0@
        != #[trigger] new[j].0@ by {
        assert(new[i].0@ == old[i].0@ && new[j].0@ == old[j].0@);
    }
}

proof fn lemma_push_absent_distinct(old: Seq<(String, VarType)>, new: Seq<(String, VarType)>, k: Seq<char>)
    requires
        keys_distinct(old),
        key_pos(old, k) == -1,
        new.len() == old.len() + 1,
        forall|i: int| 0 <= i < old.len() ==> #[trigger] new[i] == old[i],
        new.last().0@ == k,
    ensures
        keys_distinct(new),
{
    lemma_find_from(old, k, 0);
    assert forall|i: int, j: int|
        0 <= i < new.len() && 0 <= j < new.len() && i != j implies #[trigger] new[i].0@
        != #[trigger] new[j].0@ by {
        if i < old.len() && j < old.len() {
            assert(new[i] == old[i] && new[j] == old[j]);
        } else if i < old.len() {
            assert(new[i] == old[i]);
        } else {
            assert(new[j] == old[j]);
        }
    }
}

proof fn lemma_set_key_distinct(old: Seq<(String, VarType)>, new: Seq<(String, VarType)>, k: Seq<char>, v: VarType)
    requires
        keys_distinct(old),
        set_key(old, new, k, v),
    ensures
        keys_distinct(new),
{
    lemma_find_from(old, k, 0);
    let p = key_pos(old, k);
    if p >= 0 {
        assert forall|i: int| 0 <= i < old.len() implies #[trigger] new[i].0@ == old[i].0@ by {
            if i != p {
                assert(new[i] == old[i]);
            }
        }
        lemma_same_names_distinct(old, new);
    } else {
        lemma_push_absent_distinct(old, new, k);
    }
}

/// Writing at a path keeps the names of a map distinct.
pub proof fn lemma_inserted_distinct(
    old: Seq<(String, VarType)>,
    new: Seq<(String, VarType)>,
    path: Seq<char>,
    v: VarType,
)
    requires
        keys_distinct(old),
        inserted(old, new, path, v),
    ensures
        keys_distinct(new),
{
    let k = seg_len(path);
    if k >= path.len() {
        lemma_set_key_distinct(old, new, path, v);
    } else {
        let seg = path.take(k);
        lemma_find_from(old, seg, 0);
        let p = key_pos(old, seg);
        if p >= 0 {
            if old[p].1 is Dict {
                assert forall|i: int| 0 <= i < old.len() implies #[trigger] new[i].0@ == old[i].0@ by {
                    if i != p {
                        assert(new[i] == old[i]);
                    }
                }
                lemma_same_names_distinct(old, new);
            }
        } else {
            lemma_push_absent_distinct(old, new, seg);
        }
    }
}

/// Setting a key in the map at a path keeps the names of a map distinct.
pub proof fn lemma_put_at_distinct(
    old: Seq<(String, VarType)>,
    new: Seq<(String, VarType)>,
    path: Seq<char>,
    key: Seq<char>,
    v: VarType,
)
    requires
        keys_distinct(old),
        put_at(old, new, path, key, v),
    ensures
        keys_distinct(new),
{
    let k = seg_len(path);
    let seg = if k >= path.len() {
        path
    } else {
        path.take(k)
    };
    let p = key_pos(old, seg);
    if p >= 0 && old[p].1 is Dict {
        assert forall|i: int| 0 <= i < old.len() implies #[trigger] new[i].0@ == old[i].0@ by {
            if i != p {
                assert(new[i] == old[i]);
            }
        }
        lemma_same_names_distinct(old, new);
    }
}

fn same_chars(a: &Vec<char>, b: &Vec<char>) -> (r: bool)
    ensures
        r == (a@ == b@),
{
    if a.len() != b.len() {
        return false;
    }
    let mut i: usize = 0;
    while i < a.len()
        invariant
            i <= a@.len() == b@.len(),
            forall|j: int| 0 <= j < i ==> a@[j] == b@[j],
        decreases a@.len() - i,
    {
        if a[i] != b[i] {
            return false;
        }
        i = i + 1;
    }
    assert(a@ =~= b@);
    true
}

/// Where the first entry named `k` stands.
fn find_key(s: &Vec<(String, VarType)>, k: &Vec<char>) -> (r: Option<usize>)
    ensures
        match r {
            Some(p) => p as int == key_pos(s@, k@) && p < s@.len() && s@[p as int].0@ == k@,
            None => key_pos(s@, k@) == -1,
        },
{
    proof {
        lemma_find_from(s@, k@, 0);
    }
    let mut i: usize = 0;
    while i < s.len()
        invariant
            i <= s@.len(),
            key_pos(s@, k@) == find_from(s@, k@, i as int),
        decreases s@.len() - i,
    {
        if same_chars(&chars_of(s[i].0.as_str()), k) {
            return Some(i);
        }
        i = i + 1;
    }
    None
}

fn set_entry(entries: &mut Vec<(String, VarType)>, k: &Vec<char>, value: VarType)
    ensures
        set_key(old(entries)@, final(entries)@, k@, value),
{
    match find_key(entries, k) {
        Some(p) => {
            entries.set(p, (string_of(k), value));
        },
        None => {
            entries.push((string_of(k), value));
        },
    }
}

fn insert_path(entries: &mut Vec<(String, VarType)>, path: &Vec<char>, value: VarType)
    ensures
        inserted(old(entries)@, final(entries)@, path@, value),
    decreases path@.len(),
{
    let k = run_end(path, 0, CharClass::IsNot('/'));
    assert(path@.skip(0) =~= path@);
    if k == path.len() {
        set_entry(entries, path, value);
        return;
    }
    let seg = slice_of(path, 0, k);
    let rest = slice_of(path, k + 1, path.len());
    assert(seg@ =~= path@.take(k as int));
    assert(rest@ =~= path@.skip(k + 1));
    match find_key(entries, &seg) {
        Some(p) => {
            if let VarType::Dict(_) = &entries[p].1 {
                let ghost before = entries@;
                let (key, val) = entries.remove(p);
                if let VarType::Dict(mut inner) = val {
                    let ghost inner_before = inner.entries@;
                    assert(before[p as int].1 == VarType::Dict(inner));
                    insert_path(&mut inner.entries, &rest, value);
                    entries.insert(p, (key, VarType::Dict(inner)));
                    assert(same_but(before, entries@, p as int));
                    assert(inserted(inner_before, entries@[p as int].1->Dict_0.entries@, rest@, value));
                }
            }
        },
        None => {
            let mut inner = PropertyMap::new();
            assert(inner.entries@ =~= Seq::<(String, VarType)>::empty());
            insert_path(&mut inner.entries, &rest, value);
            entries.push((string_of(&seg), VarType::Dict(inner)));
        },
    }
}

fn put_path(entries: &mut Vec<(String, VarType)>, path: &Vec<char>, key: &Vec<char>, value: VarType)
    ensures
        put_at(old(entries)@, final(entries)@, path@, key@, value),
    decreases path@.len(),
{
    let k = run_end(path, 0, CharClass::IsNot('/'));
    assert(path@.skip(0) =~= path@);
    let seg = slice_of(path, 0, k);
    assert(seg@ =~= (if k >= path@.len() {
        path@
    } else {
        path@.take(k as int)
    }));
    if let Some(p) = find_key(entries, &seg) {
        if let VarType::Dict(_) = &entries[p].1 {
            let ghost before = entries@;
            let (name, val) = entries.remove(p);
            if let VarType::Dict(mut inner) = val {
                if k == path.len() {
                    set_entry(&mut inner.entries, key, value);
                } else {
                    let rest = slice_of(path, k + 1, path.len());
                    assert(rest@ =~= path@.skip(k + 1));
                    put_path(&mut inner.entries, &rest, key, value);
                }
                entries.insert(p, (name, VarType::Dict(inner)));
                assert(same_but(before, entries@, p as int));
            }
        }
    }
}

/// Reading and writing values by slash-separated paths.
pub trait PropertyTrait {
    spec fn entries_view(&self) -> Seq<(String, VarType)>;

    /// Writes `value` at `path`, making the maps on the way that are missing.
    fn insert_to(&mut self, path: String, value: VarType)
        ensures
            inserted(old(self).entries_view(), final(self).entries_view(), path@, value),
            keys_distinct(old(self).entries_view()) ==> keys_distinct(final(self).entries_view()),
    ;

    /// The value at `path`, if every segment before the last names a map.
    fn get_from(&self, path: &String) -> (r: Option<&VarType>)
        ensures
            match r {
                Some(v) => lookup_path(self.entries_view(), path@) == Some(*v),
                None => lookup_path(self.entries_view(), path@) is None,
            },
    ;

    /// Sets `key` to `value` in the map at `path`, if a map stands there.
    fn put_in(&mut self, path: &String, key: String, value: VarType)
        ensures
            put_at(old(self).entries_view(), final(self).entries_view(), path@, key@, value),
            keys_distinct(old(self).entries_view()) ==> keys_distinct(final(self).entries_view()),
    ;
}

fn lookup_ref<'a>(entries: &'a Vec<(String, VarType)>, path: &Vec<char>) -> (r: Option<&'a VarType>)
    ensures
        match r {
            Some(v) => lookup_path(entries@, path@) == Some(*v),
            None => lookup_path(entries@, path@) is None,
        },
    decreases path@.len(),
{
    let k = run_end(path, 0, CharClass::IsNot('/'));
    assert(path@.skip(0) =~= path@);
    if k == path.len() {
        return match find_key(entries, path) {
            Some(p) => Some(&entries[p].1),
            None => None,
        };
    }
    let seg = slice_of(path, 0, k);
    assert(seg@ =~= path@.take(k as int));
    match find_key(entries, &seg) {
        Some(p) => match &entries[p].1 {
            VarType::Dict(inner) => {
                let rest = slice_of(path, k + 1, path.len());
                assert(rest@ =~= path@.skip(k + 1));
                lookup_ref(&inner.entries, &rest)
            },
            _ => None,
        },
        None => None,
    }
}

impl PropertyTrait for PropertyMap {
    open spec fn entries_view(&self) -> Seq<(String, VarType)> {
        self.entries@
    }

    fn insert_to(&mut self, path: String, value: VarType) {
        let ghost before = self.entries@;
        insert_path(&mut self.entries, &chars_of(path.as_str()), value);
        proof {
            if keys_distinct(before) {
                lemma_inserted_distinct(before, self.entries@, path@, value);
            }
        }
    }

    fn get_from(&self, path: &String) -> (r: Option<&VarType>) {
        lookup_ref(&self.entries, &chars_of(path.as_str()))
    }

    fn put_in(&mut self, path: &String, key: String, value: VarType) {
        let ghost before = self.entries@;
        put_path(&mut self.entries, &chars_of(path.as_str()), &chars_of(key.as_str()), value);
        proof {
            if keys_distinct(before) {
                lemma_put_at_distinct(before, self.entries@, path@, key@, value);
            }
        }
    }
}

/// Every segment of `path` before the last is absent or names a map.
pub open spec fn writable(s: Seq<(String, VarType)>, path: Seq<char>) -> bool
    decreases path.len(),
{
    let k = seg_len(path);
    if k >= path.len() {
        true
    } else {
        match lookup(s, path.take(k)) {
            None => true,
            Some(VarType::Dict(inner)) => writable(inner.entries@, path.skip(k + 1)),
            Some(_) => false,
        }
    }
}

proof fn lemma_first_at(s: Seq<(String, VarType)>, k: Seq<char>, start: int, i: int)
    requires
        0 <= start <= i < s.len(),
        s[i].0@ == k,
        forall|j: int| start <= j < i ==> s[j].0@ != k,
    ensures
        find_from(s, k, start) == i,
    decreases i - start,
{
    if start < i {
        lemma_first_at(s, k, start + 1, i);
    }
}

/// After `set_key`, the key holds the value.
proof fn lemma_set_key_lookup(
    old: Seq<(String, VarType)>,
    new: Seq<(String, VarType)>,
    k: Seq<char>,
    v: VarType,
)
    requires
        set_key(old, new, k, v),
    ensures
        lookup(new, k) == Some(v),
{
    lemma_find_from(old, k, 0);
    let p = key_pos(old, k);
    if p >= 0 {
        lemma_first_at(new, k, 0, p);
    } else {
        lemma_first_at(new, k, 0, old.len() as int);
    }
}

/// Writing a value at a path and reading that path back gives the value, when no
/// entry on the way holds something else than a map.
pub proof fn lemma_get_after_insert(
    old: Seq<(String, VarType)>,
    new: Seq<(String, VarType)>,
    path: Seq<char>,
    v: VarType,
)
    requires
        inserted(old, new, path, v),
        writable(old, path),
    ensures
        lookup_path(new, path) == Some(v),
    decreases path.len(),
{
    let k = seg_len(path);
    if k >= path.len() {
        lemma_set_key_lookup(old, new, path, v);
    } else {
        let seg = path.take(k);
        let rest = path.skip(k + 1);
        lemma_find_from(old, seg, 0);
        let p = key_pos(old, seg);
        if p >= 0 {
            lemma_first_at(new, seg, 0, p);
            let inner = old[p].1->Dict_0;
            lemma_get_after_insert(inner.entries@, new[p].1->Dict_0.entries@, rest, v);
        } else {
            lemma_first_at(new, seg, 0, old.len() as int);
            lemma_get_after_insert(Seq::empty(), new.last().1->Dict_0.entries@, rest, v);
        }
    }
}

/// What a value line does to a store: an assignment `key = value` writes at the
/// path `key` and becomes the open key; otherwise a nested-object line
/// `"key": value,` sets `key` in the map at the open key; anything else does nothing.
pub open spec fn line_applied(
    old: Seq<(String, VarType)>,
    new: Seq<(String, VarType)>,
    open_key: Option<Seq<char>>,
    new_open_key: Option<Seq<char>>,
    line: Seq<char>,
    rtype: Seq<char>,
) -> bool {
    match split_once(line, '=') {
        Some((k, v)) => {
            &&& new_open_key == Some(trim(k))
            &&& exists|x: VarType|
                is_literal(&x, rhs_literal(trim(v), rtype)) && #[trigger] inserted(old, new, trim(k), x)
        },
        None => {
            &&& new_open_key == open_key
            &&& if split_once(line, ':') is Some && open_key is Some {
                let parts = split_once(line, ':')->0;
                exists|x: VarType|
                    is_literal(&x, rhs_literal(trim(strip_end(trim(parts.1), CharClass::Is(','))), rtype))
                        && #[trigger] put_at(
                        old,
                        new,
                        open_key->0,
                        trim(strip(parts.0, CharClass::Is('"'))),
                        x,
                    )
            } else {
                new == old
            }
        },
    }
}

/// The text of an optional key.
pub open spec fn key_view(k: Option<String>) -> Option<Seq<char>> {
    match k {
        Some(s) => Some(s@),
        None => None,
    }
}

impl PropertyMap {
    /// Applies a value line of a block of type `rtype` to the store; `open_key` is
    /// the key of the last assignment.
    pub fn apply_line(&mut self, line: &str, rtype: &String, open_key: &mut Option<String>)
        ensures
            line_applied(
                old(self).entries@,
                final(self).entries@,
                key_view(*old(open_key)),
                key_view(*final(open_key)),
                line@,
                rtype@,
            ),
            keys_distinct(old(self).entries@) ==> keys_distinct(final(self).entries@),
    {
        let ghost before = self.entries@;
        let ghost ok0 = key_view(*open_key);
        if let Some(cmd) = TscnHelper::parse_command(line, rtype.as_str()) {
            let key = cmd.lhs.clone();
            let ghost v = cmd.rhs;
            let ghost k = cmd.lhs@;
            self.insert_to(cmd.lhs, cmd.rhs);
            assert(inserted(before, self.entries@, k, v));
            *open_key = Some(key);
        } else if let Some(cmd) = TscnHelper::parse_obj(line, rtype.as_str()) {
            if let Some(p) = &*open_key {
                let ghost v = cmd.rhs;
                let ghost k = cmd.lhs@;
                self.put_in(p, cmd.lhs, cmd.rhs);
                let ghost parts = split_once(line@, ':')->0;
                assert(ok0->0 == p@);
                assert(put_at(before, self.entries@, ok0->0, trim(strip(parts.0, CharClass::Is('"'))), v));
            }
        }
    }
}

} // verus!
