//! The entity text of a map: a sequence of `{ "key" "value" ... }` blocks.
use vstd::prelude::*;
use vstd::utf8::valid_utf8;
use crate::bytes::{find_nul, has_nul, is_first_nul, is_utf8};
use crate::wad::bytes_eq;

verus! {

pub open spec fn is_space(c: u8) -> bool {
    c == 32 || c == 9 || c == 10 || c == 13
}

/// The first position at or after `i` that holds no white space.
pub open spec fn skip_ws(s: Seq<u8>, i: int) -> int
    decreases s.len() - i,
{
    if 0 <= i < s.len() && is_space(s[i]) {
        skip_ws(s, i + 1)
    } else {
        i
    }
}

/// The first double quote at or after `i`; the end of the text if none.
pub open spec fn find_quote(s: Seq<u8>, i: int) -> int
    decreases s.len() - i,
{
    if i < 0 || i >= s.len() {
        s.len() as int
    } else if s[i] == 34 {
        i
    } else {
        find_quote(s, i + 1)
    }
}

/// A double-quoted string at `i`: its contents and the position after it.
pub open spec fn quoted(s: Seq<u8>, i: int) -> Option<(Seq<u8>, int)> {
    if 0 <= i < s.len() && s[i] == 34 {
        let e = find_quote(s, i + 1);
        if e < s.len() {
            Some((s.subrange(i + 1, e), e + 1))
        } else {
            None
        }
    } else {
        None
    }
}

pub struct PropertyView {
    pub key: Seq<u8>,
    pub value: Seq<u8>,
}

/// A `"key" "value"` pair at `i`, white space allowed between the two.
pub open spec fn entry_at(s: Seq<u8>, i: int) -> Option<(PropertyView, int)> {
    match quoted(s, i) {
        None => None,
        Some((k, j)) => match quoted(s, skip_ws(s, j)) {
            None => None,
            Some((v, l)) => Some((PropertyView { key: k, value: v }, l)),
        },
    }
}

/// As many pairs as follow `i`, each surrounded by white space; the position
/// after the last one's trailing white space, or `i` when there is none.
pub open spec fn entries_from(s: Seq<u8>, i: int) -> (Seq<PropertyView>, int)
    decreases s.len() - i,
{
    match entry_at(s, skip_ws(s, i)) {
        None => (Seq::empty(), i),
        Some((p, j)) => {
            let b = skip_ws(s, j);
            if i < b <= s.len() {
                let rest = entries_from(s, b);
                (seq![p] + rest.0, rest.1)
            } else {
                (seq![p], b)
            }
        },
    }
}

/// A `{ ... }` block at `i`: its pairs and the position after it.
pub open spec fn entity_at(s: Seq<u8>, i: int) -> Option<(Seq<PropertyView>, int)> {
    if 0 <= i < s.len() && s[i] == 123 {
        let (props, j) = entries_from(s, skip_ws(s, i + 1));
        let k = skip_ws(s, j);
        if 0 <= k < s.len() && s[k] == 125 {
            Some((props, k + 1))
        } else {
            None
        }
    } else {
        None
    }
}

/// As many blocks as follow `i`, each surrounded by white space; text after
/// the last well-formed block is ignored.
pub open spec fn entities_from(s: Seq<u8>, i: int) -> Seq<Seq<PropertyView>>
    decreases s.len() - i,
{
    match entity_at(s, skip_ws(s, i)) {
        None => Seq::empty(),
        Some((e, j)) => {
            let b = skip_ws(s, j);
            if i < b <= s.len() {
                seq![e] + entities_from(s, b)
            } else {
                seq![e]
            }
        },
    }
}

fn skip_spaces(s: &[u8], i: usize) -> (r: usize)
    requires
        i <= s@.len(),
    ensures
        r == skip_ws(s@, i as int),
        i <= r <= s@.len(),
{
    let mut k = i;
    while k < s.len() && (s[k] == 32 || s[k] == 9 || s[k] == 10 || s[k] == 13)
        invariant
            i <= k <= s@.len(),
            skip_ws(s@, k as int) == skip_ws(s@, i as int),
        decreases s@.len() - k,
    {
        k = k + 1;
    }
    k
}

fn read_quoted(s: &[u8], i: usize) -> (r: Option<(Vec<u8>, usize)>)
    requires
        i <= s@.len(),
    ensures
        match r {
            Some((c, n)) => quoted(s@, i as int) == Some((c@, n as int)) && i < n <= s@.len(),
            None => quoted(s@, i as int) is None,
        },
{
    if i >= s.len() || s[i] != 34 {
        return None;
    }
    let mut e = i + 1;
    while e < s.len() && s[e] != 34
        invariant
            i < e <= s@.len(),
            find_quote(s@, e as int) == find_quote(s@, i + 1),
        decreases s@.len() - e,
    {
        e = e + 1;
    }
    if e >= s.len() {
        return None;
    }
    let c = vstd::slice::slice_to_vec(vstd::slice::slice_subrange(s, i + 1, e));
    Some((c, e + 1))
}

/// A key and its value.
pub struct Property {
    pub key: Vec<u8>,
    pub value: Vec<u8>,
}

impl View for Property {
    type V = PropertyView;

    open spec fn view(&self) -> PropertyView {
        PropertyView { key: self.key@, value: self.value@ }
    }
}

fn read_entry(s: &[u8], i: usize) -> (r: Option<(Property, usize)>)
    requires
        i <= s@.len(),
    ensures
        match r {
            Some((p, n)) => entry_at(s@, i as int) == Some((p@, n as int)) && i < n <= s@.len(),
            None => entry_at(s@, i as int) is None,
        },
{
    let (key, j) = read_quoted(s, i)?;
    let (value, l) = read_quoted(s, skip_spaces(s, j))?;
    Some((Property { key, value }, l))
}

pub open spec fn props_view(v: Seq<Property>) -> Seq<PropertyView> {
    v.map_values(|p: Property| p@)
}

fn read_entries(s: &[u8], i: usize) -> (r: (Vec<Property>, usize))
    requires
        i <= s@.len(),
    ensures
        entries_from(s@, i as int) == (props_view(r.0@), r.1 as int),
        i <= r.1 <= s@.len(),
{
    let mut out: Vec<Property> = Vec::new();
    let mut cur = i;
    loop
        invariant
            i <= cur <= s@.len(),
            entries_from(s@, i as int) == (
                props_view(out@) + entries_from(s@, cur as int).0,
                entries_from(s@, cur as int).1,
            ),
        decreases s@.len() - cur,
    {
        let a = skip_spaces(s, cur);
        match read_entry(s, a) {
            None => {
                assert(props_view(out@) + Seq::<PropertyView>::empty() =~= props_view(out@));
                return (out, cur);
            },
            Some((p, j)) => {
                let b = skip_spaces(s, j);
                let ghost pv = p@;
                let ghost before = out@;
                out.push(p);
                assert(props_view(out@) =~= props_view(before).push(pv));
                if cur < b {
                    assert(props_view(before) + (seq![pv] + entries_from(s@, b as int).0)
                        =~= props_view(out@) + entries_from(s@, b as int).0);
                    cur = b;
                } else {
                    assert(props_view(before) + seq![pv] =~= props_view(out@));
                    return (out, b);
                }
            },
        }
    }
}

/// An entity: its key/value pairs in text order.
pub struct Entity {
    pub properties: Vec<Property>,
}

impl View for Entity {
    type V = Seq<PropertyView>;

    open spec fn view(&self) -> Seq<PropertyView> {
        props_view(self.properties@)
    }
}

fn read_entity(s: &[u8], i: usize) -> (r: Option<(Entity, usize)>)
    requires
        i <= s@.len(),
    ensures
        match r {
            Some((e, n)) => entity_at(s@, i as int) == Some((e@, n as int)) && i < n <= s@.len(),
            None => entity_at(s@, i as int) is None,
        },
{
    if i >= s.len() || s[i] != 123 {
        return None;
    }
    let (properties, j) = read_entries(s, skip_spaces(s, i + 1));
    let k = skip_spaces(s, j);
    if k < s.len() && s[k] == 125 {
        Some((Entity { properties }, k + 1))
    } else {
        None
    }
}

/// The last value under `key`.
pub open spec fn prop_lookup(props: Seq<PropertyView>, key: Seq<u8>) -> Option<Seq<u8>>
    decreases props.len(),
{
    if props.len() == 0 {
        None
    } else if props.last().key == key {
        Some(props.last().value)
    } else {
        prop_lookup(props.drop_last(), key)
    }
}

impl Entity {
    pub fn properties(&self) -> (r: &[Property])
        ensures
            r@ == self.properties@,
    {
        self.properties.as_slice()
    }

    /// The value under `key`; the last one where keys repeat.
    pub fn get(&self, key: &[u8]) -> (r: Option<&[u8]>)
        ensures
            match r {
                Some(v) => prop_lookup(self@, key@) == Some(v@),
                None => prop_lookup(self@, key@) is None,
            },
    {
        let mut i = self.properties.len();
        assert(self@.subrange(0, i as int) =~= self@);
        while i > 0
            invariant
                i <= self.properties@.len(),
                prop_lookup(self@, key@) == prop_lookup(self@.subrange(0, i as int), key@),
            decreases i,
        {
            let p = &self.properties[i - 1];
            proof {
                let sub = self@.subrange(0, i as int);
                assert(sub.last() == p@);
                assert(sub.drop_last() =~= self@.subrange(0, i - 1));
            }
            if bytes_eq(p.key.as_slice(), key) {
                return Some(p.value.as_slice());
            }
            i = i - 1;
        }
        assert(self@.subrange(0, 0) =~= Seq::<PropertyView>::empty());
        None
    }
}

/// The entities of a map, in text order.
pub struct Entities {
    pub entities: Vec<Entity>,
}

impl View for Entities {
    type V = Seq<Seq<PropertyView>>;

    open spec fn view(&self) -> Seq<Seq<PropertyView>> {
        self.entities@.map_values(|e: Entity| e@)
    }
}

impl Entities {
    /// Read the blocks of an entity text; reading stops at the first text
    /// that is not a well-formed block.
    pub fn parse(s: &[u8]) -> (r: Entities)
        ensures
            r@ == entities_from(s@, 0),
    {
        let mut out: Vec<Entity> = Vec::new();
        let mut cur: usize = 0;
        loop
            invariant
                cur <= s@.len(),
                entities_from(s@, 0) == out@.map_values(|e: Entity| e@) + entities_from(
                    s@,
                    cur as int,
                ),
            decreases s@.len() - cur,
        {
            let a = skip_spaces(s, cur);
            match read_entity(s, a) {
                None => {
                    assert(out@.map_values(|e: Entity| e@) + Seq::<Seq<PropertyView>>::empty()
                        =~= out@.map_values(|e: Entity| e@));
                    return Entities { entities: out };
                },
                Some((e, j)) => {
                    let b = skip_spaces(s, j);
                    let ghost ev = e@;
                    let ghost before = out@.map_values(|e: Entity| e@);
                    out.push(e);
                    assert(out@.map_values(|e: Entity| e@) =~= before.push(ev));
                    if cur < b {
                        assert(before + (seq![ev] + entities_from(s@, b as int)) =~= out@.map_values(
                            |e: Entity| e@,
                        ) + entities_from(s@, b as int));
                        cur = b;
                    } else {
                        assert(before + seq![ev] =~= out@.map_values(|e: Entity| e@));
                        return Entities { entities: out };
                    }
                },
            }
        }
    }

    pub fn entities(&self) -> (r: &[Entity])
        ensures
            r@ == self.entities@,
    {
        self.entities.as_slice()
    }
}

/// The entity lump's text: up to its NUL, which must be there, and valid
/// UTF-8.
pub open spec fn entity_text_ok(b: Seq<u8>) -> bool {
    has_nul(b) && valid_utf8(b.subrange(0, choose|i: int| is_first_nul(b, i)))
}

/// Read the entities of an entity lump: its text runs up to the first NUL and
/// must be UTF-8; nothing otherwise.
pub fn parse_entities(i: &[u8]) -> (r: Option<Entities>)
    ensures
        match r {
            Some(e) => entity_text_ok(i@) && e@ == entities_from(
                i@.subrange(0, choose|k: int| is_first_nul(i@, k)),
                0,
            ),
            None => !entity_text_ok(i@),
        },
{
    let n = find_nul(i)?;
    proof {
        let c = choose|k: int| is_first_nul(i@, k);
        assert(c == n as int) by {
            if c < n as int {
                assert(i@[c] == 0);
            } else if c > n as int {
                assert(i@[n as int] == 0);
            }
        }
    }
    let text = vstd::slice::slice_subrange(i, 0, n);
    if !is_utf8(text) {
        return None;
    }
    Some(Entities::parse(text))
}

pub open spec fn skyname_key() -> Seq<u8> {
    seq![115u8, 107u8, 121u8, 110u8, 97u8, 109u8, 101u8]
}

pub open spec fn classname_key() -> Seq<u8> {
    seq![99u8, 108u8, 97u8, 115u8, 115u8, 110u8, 97u8, 109u8, 101u8]
}

pub open spec fn info_player_start() -> Seq<u8> {
    seq![
        105u8,
        110u8,
        102u8,
        111u8,
        95u8,
        112u8,
        108u8,
        97u8,
        121u8,
        101u8,
        114u8,
        95u8,
        115u8,
        116u8,
        97u8,
        114u8,
        116u8,
    ]
}

pub open spec fn worldspawn() -> Seq<u8> {
    seq![119u8, 111u8, 114u8, 108u8, 100u8, 115u8, 112u8, 97u8, 119u8, 110u8]
}

/// The first entity whose `classname` is `class`.
pub open spec fn first_of_class(es: Seq<Seq<PropertyView>>, class: Seq<u8>, i: int) -> bool {
    &&& 0 <= i < es.len()
    &&& prop_lookup(es[i], classname_key()) == Some(class)
    &&& forall|j: int| 0 <= j < i ==> prop_lookup(#[trigger] es[j], classname_key()) != Some(class)
}

/// The first entity of a class.
fn find_class<'a>(entities: &'a Entities, class: &[u8]) -> (r: Option<&'a Entity>)
    ensures
        match r {
            Some(e) => exists|i: int| first_of_class(entities@, class@, i) && entities@[i] == e@,
            None => forall|i: int|
                0 <= i < entities@.len() ==> prop_lookup(
                    #[trigger] entities@[i],
                    classname_key(),
                ) != Some(class@),
        },
{
    let key = vec![99u8, 108u8, 97u8, 115u8, 115u8, 110u8, 97u8, 109u8, 101u8];
    assert(key@ =~= classname_key());
    let mut i: usize = 0;
    while i < entities.entities.len()
        invariant
            key@ == classname_key(),
            i <= entities.entities@.len(),
            forall|j: int|
                0 <= j < i ==> prop_lookup(#[trigger] entities@[j], classname_key()) != Some(class@),
        decreases entities.entities@.len() - i,
    {
        let e = &entities.entities[i];
        assert(entities@[i as int] == e@);
        match e.get(key.as_slice()) {
            Some(v) => {
                if bytes_eq(v, class) {
                    return Some(e);
                }
            },
            None => {},
        }
        i = i + 1;
    }
    None
}

/// The player's spawn point: the first `info_player_start` entity.
pub fn find_info_player_start(entities: &Entities) -> (r: Option<&Entity>)
    ensures
        match r {
            Some(e) => exists|i: int|
                first_of_class(entities@, info_player_start(), i) && entities@[i] == e@,
            None => forall|i: int|
                0 <= i < entities@.len() ==> prop_lookup(
                    #[trigger] entities@[i],
                    classname_key(),
                ) != Some(info_player_start()),
        },
{
    let class = vec![
        105u8,
        110u8,
        102u8,
        111u8,
        95u8,
        112u8,
        108u8,
        97u8,
        121u8,
        101u8,
        114u8,
        95u8,
        115u8,
        116u8,
        97u8,
        114u8,
        116u8,
    ];
    assert(class@ =~= info_player_start());
    find_class(entities, class.as_slice())
}

/// The world entity: the first `worldspawn` entity.
pub fn find_worldspawn(entities: &Entities) -> (r: Option<&Entity>)
    ensures
        match r {
            Some(e) => exists|i: int| first_of_class(entities@, worldspawn(), i) && entities@[i] == e@,
            None => forall|i: int|
                0 <= i < entities@.len() ==> prop_lookup(
                    #[trigger] entities@[i],
                    classname_key(),
                ) != Some(worldspawn()),
        },
{
    let class = vec![119u8, 111u8, 114u8, 108u8, 100u8, 115u8, 112u8, 97u8, 119u8, 110u8];
    assert(class@ =~= worldspawn());
    find_class(entities, class.as_slice())
}

/// The sky's name: the `skyname` value of the first entity that has one.
pub fn get_skyname(entities: &Entities) -> (r: Option<Vec<u8>>)
    ensures
        match r {
            Some(v) => exists|i: int|
                0 <= i < entities@.len() && prop_lookup(entities@[i], skyname_key()) == Some(v@)
                    && forall|j: int|
                    0 <= j < i ==> prop_lookup(#[trigger] entities@[j], skyname_key()) is None,
            None => forall|i: int|
                0 <= i < entities@.len() ==> prop_lookup(#[trigger] entities@[i], skyname_key()) is None,
        },
{
    let key = vec![115u8, 107u8, 121u8, 110u8, 97u8, 109u8, 101u8];
    assert(key@ =~= skyname_key());
    let mut i: usize = 0;
    while i < entities.entities.len()
        invariant
            key@ == skyname_key(),
            i <= entities.entities@.len(),
            forall|j: int| 0 <= j < i ==> prop_lookup(#[trigger] entities@[j], skyname_key()) is None,
        decreases entities.entities@.len() - i,
    {
        let e = &entities.entities[i];
        assert(entities@[i as int] == e@);
        match e.get(key.as_slice()) {
            Some(v) => {
                return Some(vstd::slice::slice_to_vec(v));
            },
            None => {},
        }
        i = i + 1;
    }
    None
}

/// Position of the last `c` in `s`; -1 when there is none.
pub open spec fn last_index(s: Seq<u8>, c: u8) -> int
    decreases s.len(),
{
    if s.len() == 0 {
        -1
    } else if s.last() == c {
        s.len() - 1
    } else {
        last_index(s.drop_last(), c)
    }
}

proof fn lemma_last_index(s: Seq<u8>, c: u8)
    ensures
        -1 <= last_index(s, c) < s.len(),
        last_index(s, c) >= 0 ==> s[last_index(s, c)] == c,
        forall|k: int| last_index(s, c) < k < s.len() ==> s[k] != c,
    decreases s.len(),
{
    if s.len() > 0 && s.last() != c {
        lemma_last_index(s.drop_last(), c);
        assert forall|k: int| last_index(s, c) < k < s.len() implies s[k] != c by {
            if k < s.len() - 1 {
                assert(s.drop_last()[k] == s[k]);
            }
        }
    }
}

/// `s` cut at every `c`: `n` separators give `n + 1` parts, empty ones
/// included.
pub open spec fn split_on(s: Seq<u8>, c: u8) -> Seq<Seq<u8>>
    decreases s.len(),
{
    let p = last_index(s, c);
    if p < 0 || p >= s.len() {
        seq![s]
    } else {
        split_on(s.subrange(0, p), c).push(s.subrange(p + 1, s.len() as int))
    }
}

/// What follows the last backslash of a path.
pub open spec fn file_name(s: Seq<u8>) -> Seq<u8> {
    s.subrange(last_index(s, 92) + 1, s.len() as int)
}

/// The part of a path after its last backslash.
pub fn path_file_name(s: &[u8]) -> (r: Vec<u8>)
    ensures
        r@ == file_name(s@),
{
    proof {
        lemma_last_index(s@, 92);
    }
    let mut i = s.len();
    assert(s@.subrange(0, i as int) =~= s@);
    while i > 0 && s[i - 1] != 92
        invariant
            i <= s@.len(),
            last_index(s@, 92) == last_index(s@.subrange(0, i as int), 92),
        decreases i,
    {
        proof {
            let sub = s@.subrange(0, i as int);
            assert(sub.drop_last() =~= s@.subrange(0, i - 1));
        }
        i = i - 1;
    }
    proof {
        let sub = s@.subrange(0, i as int);
        if i > 0 {
            assert(sub.last() == 92);
        }
    }
    vstd::slice::slice_to_vec(vstd::slice::slice_subrange(s, i, s.len()))
}

/// `s` cut at every `sep`.
pub fn split_bytes(s: &[u8], sep: u8) -> (r: Vec<Vec<u8>>)
    ensures
        r@.map_values(|n: Vec<u8>| n@) == split_on(s@, sep),
{
    let mut parts: Vec<Vec<u8>> = Vec::new();
    let mut start: usize = 0;
    let mut i: usize = 0;
    assert(split_on(s@.subrange(0, 0), sep) =~= seq![s@.subrange(0, 0)]);
    while i < s.len()
        invariant
            start <= i <= s@.len(),
            last_index(s@.subrange(0, i as int), sep) == start - 1,
            split_on(s@.subrange(0, i as int), sep) == parts@.map_values(|n: Vec<u8>| n@).push(
                s@.subrange(start as int, i as int),
            ),
        decreases s@.len() - i,
    {
        let ghost before = parts@.map_values(|n: Vec<u8>| n@);
        let ghost t = s@.subrange(0, i + 1);
        proof {
            assert(t.drop_last() =~= s@.subrange(0, i as int));
            assert(t.last() == s@[i as int]);
            lemma_last_index(s@.subrange(0, i as int), sep);
        }
        if s[i] == sep {
            let part = vstd::slice::slice_to_vec(vstd::slice::slice_subrange(s, start, i));
            parts.push(part);
            proof {
                assert(t.subrange(0, i as int) =~= s@.subrange(0, i as int));
                assert(t.subrange(i + 1, i + 1) =~= s@.subrange(i + 1, i + 1));
                assert(parts@.map_values(|n: Vec<u8>| n@) =~= before.push(
                    s@.subrange(start as int, i as int),
                ));
            }
            start = i + 1;
        } else {
            proof {
                let p = start - 1;
                if p >= 0 {
                    assert(t.subrange(0, p) =~= s@.subrange(0, i as int).subrange(0, p));
                    assert(t.subrange(p + 1, i + 1) =~= s@.subrange(start as int, i + 1));
                    assert(s@.subrange(0, i as int).subrange(p + 1, i as int) =~= s@.subrange(
                        start as int,
                        i as int,
                    ));
                    assert(split_on(s@.subrange(0, i as int), sep) == split_on(
                        s@.subrange(0, i as int).subrange(0, p),
                        sep,
                    ).push(s@.subrange(start as int, i as int)));
                    let x = s@.subrange(start as int, i as int);
                    let a = split_on(s@.subrange(0, i as int).subrange(0, p), sep);
                    assert(a.push(x) == before.push(x));
                    assert(a.push(x).drop_last() =~= a);
                    assert(before.push(x).drop_last() =~= before);
                    assert(a == before);
                } else {
                    assert(before.push(s@.subrange(0, i as int)) == seq![s@.subrange(0, i as int)]);
                    assert(before.len() == 0);
                    assert(before =~= Seq::<Seq<u8>>::empty());
                    assert(t =~= s@.subrange(start as int, i + 1));
                }
            }
        }
        i = i + 1;
    }
    let last = vstd::slice::slice_to_vec(vstd::slice::slice_subrange(s, start, s.len()));
    let ghost before = parts@.map_values(|n: Vec<u8>| n@);
    parts.push(last);
    assert(s@.subrange(0, s@.len() as int) =~= s@);
    assert(parts@.map_values(|n: Vec<u8>| n@) =~= before.push(
        s@.subrange(start as int, s@.len() as int),
    ));
    parts
}

/// The archive file names of a `wad` key: its `;`-separated paths, each
/// without its directories.
pub fn wads_as_dependencies(s: &[u8]) -> (r: Vec<Vec<u8>>)
    ensures
        r@.map_values(|n: Vec<u8>| n@) == split_on(s@, 59).map_values(|p: Seq<u8>| file_name(p)),
{
    let parts = split_bytes(s, 59);
    let ghost pv = parts@.map_values(|n: Vec<u8>| n@);
    let mut out: Vec<Vec<u8>> = Vec::new();
    let mut i: usize = 0;
    while i < parts.len()
        invariant
            pv == parts@.map_values(|n: Vec<u8>| n@),
            i <= parts@.len(),
            out@.len() == i,
            forall|k: int| 0 <= k < i ==> (#[trigger] out@[k])@ == file_name(parts@[k]@),
        decreases parts@.len() - i,
    {
        out.push(path_file_name(parts[i].as_slice()));
        i = i + 1;
    }
    assert(out@.map_values(|n: Vec<u8>| n@) =~= pv.map_values(|p: Seq<u8>| file_name(p)));
    out
}

} // verus!
