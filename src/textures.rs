//! The name-keyed texture cache: seeded with the textures a map embeds, then
//! completed from texture archives by insertion where a name is missing.
use vstd::prelude::*;
use crate::batch::{lower_of, to_ascii_lowercase, to_ascii_uppercase, upper_of};
use crate::miptex::{miptex_of, MipData, MipLevels, MipTexture, MipTextureView};
use crate::wad::{bytes_eq, lookup, Archive, EntryView};

verus! {

pub struct NamedTextureView {
    pub name: Seq<u8>,
    pub texture: MipTextureView,
}

/// Some entry of `m` has this name.
pub open spec fn has_name(m: Seq<NamedTextureView>, n: Seq<u8>) -> bool {
    exists|i: int| 0 <= i < m.len() && m[i].name == n
}

/// `m` with `t` under `n` added, unless `n` is already there.
pub open spec fn insert_absent(m: Seq<NamedTextureView>, n: Seq<u8>, t: MipTextureView) -> Seq<
    NamedTextureView,
> {
    if has_name(m, n) {
        m
    } else {
        m.push(NamedTextureView { name: n, texture: t })
    }
}

/// The embedded textures that carry pixel data, under their lower-case names.
pub open spec fn seed_of(m: Seq<NamedTextureView>, ts: Seq<MipTextureView>) -> Seq<
    NamedTextureView,
>
    decreases ts.len(),
{
    if ts.len() == 0 {
        m
    } else {
        let prev = seed_of(m, ts.drop_last());
        let t = ts.last();
        if t.data is Some {
            insert_absent(prev, lower_of(t.name), t)
        } else {
            prev
        }
    }
}

/// The texture an archive supplies for a name: the entry under its upper-case
/// form, else under its lower-case form, if that decodes with pixel data.
pub open spec fn archive_texture(a: Seq<EntryView>, n: Seq<u8>) -> Option<MipTextureView> {
    let e = match lookup(a, upper_of(n)) {
        Some(e) => Some(e),
        None => lookup(a, lower_of(n)),
    };
    match e {
        None => None,
        Some(e) => match miptex_of(e.data) {
            Ok(t) => if t.data is Some {
                Some(t)
            } else {
                None
            },
            Err(_) => None,
        },
    }
}

/// One name looked up in one archive, if its lower-case key is still
/// missing; what is found is stored under that key.
pub open spec fn load_one(m: Seq<NamedTextureView>, n: Seq<u8>, a: Seq<EntryView>) -> Seq<
    NamedTextureView,
> {
    if has_name(m, lower_of(n)) {
        m
    } else {
        match archive_texture(a, n) {
            Some(t) => m.push(NamedTextureView { name: lower_of(n), texture: t }),
            None => m,
        }
    }
}

/// Every required name looked up in one archive, in order.
pub open spec fn load_archive(m: Seq<NamedTextureView>, req: Seq<Seq<u8>>, a: Seq<EntryView>) -> Seq<
    NamedTextureView,
>
    decreases req.len(),
{
    if req.len() == 0 {
        m
    } else {
        load_one(load_archive(m, req.drop_last(), a), req.last(), a)
    }
}

/// The archives consulted in order of priority.
pub open spec fn resolve(
    m: Seq<NamedTextureView>,
    req: Seq<Seq<u8>>,
    archives: Seq<Seq<EntryView>>,
) -> Seq<NamedTextureView>
    decreases archives.len(),
{
    if archives.len() == 0 {
        m
    } else {
        load_archive(resolve(m, req, archives.drop_last()), req, archives.last())
    }
}

/// No two entries share a key.
pub open spec fn distinct_keys(m: Seq<NamedTextureView>) -> bool {
    forall|x: int, y: int| 0 <= x < y < m.len() ==> m[x].name != m[y].name
}

proof fn lemma_push_distinct(m: Seq<NamedTextureView>, e: NamedTextureView)
    requires
        distinct_keys(m),
        !has_name(m, e.name),
    ensures
        distinct_keys(m.push(e)),
{
    let r = m.push(e);
    assert forall|x: int, y: int| 0 <= x < y < r.len() implies r[x].name != r[y].name by {
        assert(r[x] == m[x]);
        if y < m.len() {
            assert(r[y] == m[y]);
        }
    }
}

/// A texture under its cache key.
pub struct NamedTexture {
    pub name: Vec<u8>,
    pub texture: MipTexture,
}

/// Decoded textures by name; entries are only ever appended.
pub struct TextureMap {
    pub textures: Vec<NamedTexture>,
}

impl View for TextureMap {
    type V = Seq<NamedTextureView>;

    open spec fn view(&self) -> Seq<NamedTextureView> {
        Seq::new(
            self.textures@.len(),
            |i: int|
                NamedTextureView {
                    name: self.textures@[i].name@,
                    texture: self.textures@[i].texture@,
                },
        )
    }
}

impl MipTexture {
    /// A copy of the texture.
    pub fn duplicate(&self) -> (r: MipTexture)
        ensures
            r@ == self@,
            r.wf() == self.wf(),
    {
        let data = match &self.data {
            MipData::Absent => MipData::Absent,
            MipData::Present(l) => {
                let mut levels: Vec<Vec<u8>> = Vec::with_capacity(l.levels.len());
                let mut i: usize = 0;
                while i < l.levels.len()
                    invariant
                        i <= l.levels@.len(),
                        levels@.len() == i,
                        forall|k: int| 0 <= k < i ==> (#[trigger] levels@[k])@ == l.levels@[k]@,
                    decreases l.levels@.len() - i,
                {
                    levels.push(l.levels[i].clone());
                    i = i + 1;
                }
                let copy = MipLevels { levels, palette: l.palette.clone() };
                assert(Seq::new(copy.levels@.len(), |k: int| copy.levels@[k]@) =~= Seq::new(
                    l.levels@.len(),
                    |k: int| l.levels@[k]@,
                ));
                MipData::Present(copy)
            },
        };
        MipTexture { name: self.name.clone(), width: self.width, height: self.height, data }
    }
}

/// Fetch and decode the texture an archive holds for a name.
fn fetch(archive: &Archive, name: &[u8]) -> (r: Option<MipTexture>)
    ensures
        match r {
            Some(t) => archive_texture(archive@, name@) == Some(t@) && t.wf(),
            None => archive_texture(archive@, name@) is None,
        },
{
    let upper = to_ascii_uppercase(name);
    let entry = match archive.get_by_name(upper.as_slice()) {
        Some(e) => Some(e),
        None => {
            let lower = to_ascii_lowercase(name);
            archive.get_by_name(lower.as_slice())
        },
    };
    match entry {
        None => None,
        Some(e) => match MipTexture::parse(e.data()) {
            Ok(t) => {
                if t.is_absent() {
                    None
                } else {
                    Some(t)
                }
            },
            Err(_) => None,
        },
    }
}

impl TextureMap {
    /// Every texture is well formed and no two share a key.
    pub open spec fn wf(&self) -> bool {
        &&& forall|i: int| 0 <= i < self.textures@.len() ==> (#[trigger] self.textures@[i]).texture.wf()
        &&& distinct_keys(self@)
    }

    pub fn new() -> (r: TextureMap)
        ensures
            r@ == Seq::<NamedTextureView>::empty(),
            r.wf(),
    {
        let r = TextureMap { textures: Vec::new() };
        assert(r@ =~= Seq::<NamedTextureView>::empty());
        r
    }

    /// Position of the entry under this name.
    fn find(&self, name: &[u8]) -> (r: Option<usize>)
        ensures
            match r {
                Some(i) => i < self@.len() && self@[i as int].name == name@,
                None => !has_name(self@, name@),
            },
    {
        let mut i: usize = 0;
        while i < self.textures.len()
            invariant
                i <= self.textures@.len(),
                forall|k: int| 0 <= k < i ==> self.textures@[k].name@ != name@,
            decreases self.textures@.len() - i,
        {
            if bytes_eq(self.textures[i].name.as_slice(), name) {
                return Some(i);
            }
            i = i + 1;
        }
        assert forall|k: int| 0 <= k < self@.len() implies self@[k].name != name@ by {
            assert(self@[k].name == self.textures@[k].name@);
        }
        None
    }

    /// Some texture is stored under this name.
    pub fn contains(&self, name: &[u8]) -> (r: bool)
        ensures
            r == has_name(self@, name@),
    {
        self.find(name).is_some()
    }

    /// The texture stored under this name.
    pub fn get(&self, name: &[u8]) -> (r: Option<&MipTexture>)
        ensures
            match r {
                Some(t) => exists|i: int|
                    0 <= i < self@.len() && self@[i].name == name@ && self@[i].texture == t@,
                None => !has_name(self@, name@),
            },
    {
        match self.find(name) {
            Some(i) => {
                let t = &self.textures[i].texture;
                assert(self@[i as int].texture == t@);
                Some(t)
            },
            None => None,
        }
    }

    /// Store `texture` under `name` unless that name is taken.
    fn insert_if_absent(&mut self, name: Vec<u8>, texture: MipTexture)
        requires
            old(self).wf(),
            texture.wf(),
        ensures
            final(self).wf(),
            final(self)@ == insert_absent(old(self)@, name@, texture@),
    {
        if !self.contains(name.as_slice()) {
            let ghost entry = NamedTextureView { name: name@, texture: texture@ };
            self.textures.push(NamedTexture { name, texture });
            assert(self@ =~= old(self)@.push(entry));
            proof {
                lemma_push_distinct(old(self)@, entry);
            }
        }
    }

    /// Add every embedded texture that carries pixel data, under its
    /// lower-case name; the first of equal names wins.
    pub fn add_embedded(&mut self, embedded: &[MipTexture])
        requires
            old(self).wf(),
            forall|i: int| 0 <= i < embedded@.len() ==> (#[trigger] embedded@[i]).wf(),
        ensures
            final(self).wf(),
            final(self)@ == seed_of(old(self)@, embedded@.map_values(|t: MipTexture| t@)),
    {
        let ghost ts = embedded@.map_values(|t: MipTexture| t@);
        let mut i: usize = 0;
        while i < embedded.len()
            invariant
                i <= embedded@.len(),
                ts == embedded@.map_values(|t: MipTexture| t@),
                forall|k: int| 0 <= k < embedded@.len() ==> (#[trigger] embedded@[k]).wf(),
                self.wf(),
                self@ == seed_of(old(self)@, ts.subrange(0, i as int)),
            decreases embedded@.len() - i,
        {
            proof {
                let sub = ts.subrange(0, i + 1);
                assert(sub.drop_last() =~= ts.subrange(0, i as int));
                assert(sub.last() == embedded@[i as int]@);
            }
            let t = &embedded[i];
            if !t.is_absent() {
                let key = to_ascii_lowercase(t.name.as_slice());
                self.insert_if_absent(key, t.duplicate());
            }
            i = i + 1;
        }
        assert(ts.subrange(0, embedded@.len() as int) =~= ts);
    }

    /// Look every required name whose lower-case key is still missing up in
    /// one archive, and store what it supplies under that key. Stored entries
    /// are never removed or replaced.
    pub fn load_from_archive(&mut self, required: &[Vec<u8>], archive: &Archive)
        requires
            old(self).wf(),
        ensures
            final(self).wf(),
            final(self)@ == load_archive(
                old(self)@,
                required@.map_values(|n: Vec<u8>| n@),
                archive@,
            ),
    {
        let ghost req = required@.map_values(|n: Vec<u8>| n@);
        let mut i: usize = 0;
        while i < required.len()
            invariant
                i <= required@.len(),
                req == required@.map_values(|n: Vec<u8>| n@),
                self.wf(),
                self@ == load_archive(old(self)@, req.subrange(0, i as int), archive@),
            decreases required@.len() - i,
        {
            proof {
                let sub = req.subrange(0, i + 1);
                assert(sub.drop_last() =~= req.subrange(0, i as int));
                assert(sub.last() == required@[i as int]@);
            }
            let name = &required[i];
            let key = to_ascii_lowercase(name.as_slice());
            if !self.contains(key.as_slice()) {
                match fetch(archive, name.as_slice()) {
                    Some(t) => {
                        let ghost entry = NamedTextureView { name: key@, texture: t@ };
                        let ghost before = self@;
                        self.textures.push(NamedTexture { name: key, texture: t });
                        assert(self@ =~= before.push(entry));
                        proof {
                            lemma_push_distinct(before, entry);
                        }
                    },
                    None => {},
                }
            }
            i = i + 1;
        }
        assert(req.subrange(0, required@.len() as int) =~= req);
    }

    /// Every required name has a texture under its lower-case key.
    pub fn is_complete(&self, required: &[Vec<u8>]) -> (r: bool)
        ensures
            r == forall|i: int|
                0 <= i < required@.len() ==> has_name(self@, lower_of((#[trigger] required@[i])@)),
    {
        let mut i: usize = 0;
        while i < required.len()
            invariant
                i <= required@.len(),
                forall|k: int| 0 <= k < i ==> has_name(self@, lower_of((#[trigger] required@[k])@)),
            decreases required@.len() - i,
        {
            let key = to_ascii_lowercase(required[i].as_slice());
            if !self.contains(key.as_slice()) {
                return false;
            }
            i = i + 1;
        }
        true
    }
}

/// Build the texture cache for the required names: the embedded textures
/// with pixel data first, then the missing names looked up in each archive in
/// turn.
pub fn resolve_textures(required: &[Vec<u8>], embedded: &[MipTexture], archives: &[Archive]) -> (r:
    TextureMap)
    requires
        forall|i: int| 0 <= i < embedded@.len() ==> (#[trigger] embedded@[i]).wf(),
    ensures
        r.wf(),
        r@ == resolve(
            seed_of(Seq::empty(), embedded@.map_values(|t: MipTexture| t@)),
            required@.map_values(|n: Vec<u8>| n@),
            archives@.map_values(|a: Archive| a@),
        ),
{
    let mut map = TextureMap::new();
    map.add_embedded(embedded);
    map.resolve_from(required, archives);
    map
}

impl TextureMap {
    /// Complete the cache from the archives, in order of priority.
    pub fn resolve_from(&mut self, required: &[Vec<u8>], archives: &[Archive])
        requires
            old(self).wf(),
        ensures
            final(self).wf(),
            final(self)@ == resolve(
                old(self)@,
                required@.map_values(|n: Vec<u8>| n@),
                archives@.map_values(|a: Archive| a@),
            ),
    {
        let ghost req = required@.map_values(|n: Vec<u8>| n@);
        let ghost avs = archives@.map_values(|a: Archive| a@);
        let mut i: usize = 0;
        while i < archives.len()
            invariant
                i <= archives@.len(),
                req == required@.map_values(|n: Vec<u8>| n@),
                avs == archives@.map_values(|a: Archive| a@),
                self.wf(),
                self@ == resolve(old(self)@, req, avs.subrange(0, i as int)),
            decreases archives@.len() - i,
        {
            proof {
                let sub = avs.subrange(0, i + 1);
                assert(sub.drop_last() =~= avs.subrange(0, i as int));
                assert(sub.last() == archives@[i as int]@);
            }
            self.load_from_archive(required, &archives[i]);
            i = i + 1;
        }
        assert(avs.subrange(0, archives@.len() as int) =~= avs);
    }
}

proof fn lemma_load_one_grows(m: Seq<NamedTextureView>, n: Seq<u8>, a: Seq<EntryView>)
    ensures
        load_one(m, n, a).len() >= m.len(),
        load_one(m, n, a).subrange(0, m.len() as int) == m,
        has_name(load_one(m, n, a), lower_of(n)) || archive_texture(a, n) is None,
        forall|x: Seq<u8>| has_name(m, x) ==> has_name(load_one(m, n, a), x),
{
    let r = load_one(m, n, a);
    assert(r.subrange(0, m.len() as int) =~= m);
    assert forall|x: Seq<u8>| has_name(m, x) implies has_name(r, x) by {
        let i = choose|i: int| 0 <= i < m.len() && m[i].name == x;
        assert(r[i] == m[i]);
    }
    if !has_name(m, lower_of(n)) && archive_texture(a, n) is Some {
        assert(r[m.len() as int].name == lower_of(n));
    }
}

proof fn lemma_load_archive_grows(m: Seq<NamedTextureView>, req: Seq<Seq<u8>>, a: Seq<EntryView>)
    ensures
        load_archive(m, req, a).len() >= m.len(),
        load_archive(m, req, a).subrange(0, m.len() as int) == m,
        forall|x: Seq<u8>| has_name(m, x) ==> has_name(load_archive(m, req, a), x),
        forall|i: int|
            0 <= i < req.len() ==> has_name(load_archive(m, req, a), lower_of(#[trigger] req[i]))
                || archive_texture(a, req[i]) is None,
    decreases req.len(),
{
    if req.len() > 0 {
        let prev = load_archive(m, req.drop_last(), a);
        lemma_load_archive_grows(m, req.drop_last(), a);
        lemma_load_one_grows(prev, req.last(), a);
        let r = load_archive(m, req, a);
        assert(r.subrange(0, m.len() as int) =~= prev.subrange(0, m.len() as int));
        assert forall|i: int| 0 <= i < req.len() implies has_name(r, lower_of(#[trigger] req[i]))
            || archive_texture(a, req[i]) is None by {
            if i < req.len() - 1 {
                assert(req.drop_last()[i] == req[i]);
            }
        }
    }
}

proof fn lemma_load_archive_settled(m: Seq<NamedTextureView>, req: Seq<Seq<u8>>, a: Seq<EntryView>)
    requires
        forall|i: int|
            0 <= i < req.len() ==> has_name(m, lower_of(#[trigger] req[i])) || archive_texture(a, req[i])
                is None,
    ensures
        load_archive(m, req, a) == m,
    decreases req.len(),
{
    if req.len() > 0 {
        assert forall|i: int| 0 <= i < req.drop_last().len() implies has_name(
            m,
            lower_of(#[trigger] req.drop_last()[i]),
        ) || archive_texture(a, req.drop_last()[i]) is None by {
            assert(req.drop_last()[i] == req[i]);
        }
        lemma_load_archive_settled(m, req.drop_last(), a);
        assert(has_name(m, lower_of(req[req.len() - 1])) || archive_texture(a, req[req.len() - 1]) is None);
    }
}

/// Resolving never removes or replaces an entry: what was there stays, at
/// its place, and new entries only follow it.
pub proof fn lemma_resolve_keeps(
    m: Seq<NamedTextureView>,
    req: Seq<Seq<u8>>,
    archives: Seq<Seq<EntryView>>,
)
    ensures
        resolve(m, req, archives).len() >= m.len(),
        resolve(m, req, archives).subrange(0, m.len() as int) == m,
    decreases archives.len(),
{
    if archives.len() > 0 {
        let prev = resolve(m, req, archives.drop_last());
        lemma_resolve_keeps(m, req, archives.drop_last());
        lemma_load_archive_grows(prev, req, archives.last());
        let r = resolve(m, req, archives);
        assert(r.subrange(0, m.len() as int) =~= prev.subrange(0, m.len() as int));
    }
}

proof fn lemma_resolve_settles(
    m: Seq<NamedTextureView>,
    req: Seq<Seq<u8>>,
    archives: Seq<Seq<EntryView>>,
)
    ensures
        forall|i: int, j: int|
            0 <= i < req.len() && 0 <= j < archives.len() ==> has_name(
                resolve(m, req, archives),
                lower_of(#[trigger] req[i]),
            ) || archive_texture(#[trigger] archives[j], req[i]) is None,
    decreases archives.len(),
{
    if archives.len() > 0 {
        let prev = resolve(m, req, archives.drop_last());
        lemma_resolve_settles(m, req, archives.drop_last());
        lemma_load_archive_grows(prev, req, archives.last());
        assert forall|i: int, j: int|
            0 <= i < req.len() && 0 <= j < archives.len() implies has_name(
            resolve(m, req, archives),
            lower_of(#[trigger] req[i]),
        ) || archive_texture(#[trigger] archives[j], req[i]) is None by {
            if j < archives.len() - 1 {
                assert(archives.drop_last()[j] == archives[j]);
            }
        }
    }
}

proof fn lemma_resolve_settled(
    m: Seq<NamedTextureView>,
    req: Seq<Seq<u8>>,
    archives: Seq<Seq<EntryView>>,
)
    requires
        forall|i: int, j: int|
            0 <= i < req.len() && 0 <= j < archives.len() ==> has_name(m, lower_of(#[trigger] req[i]))
                || archive_texture(#[trigger] archives[j], req[i]) is None,
    ensures
        resolve(m, req, archives) == m,
    decreases archives.len(),
{
    if archives.len() > 0 {
        assert forall|i: int, j: int|
            0 <= i < req.len() && 0 <= j < archives.drop_last().len() implies has_name(
            m,
            lower_of(#[trigger] req[i]),
        ) || archive_texture(#[trigger] archives.drop_last()[j], req[i]) is None by {
            assert(archives.drop_last()[j] == archives[j]);
        }
        lemma_resolve_settled(m, req, archives.drop_last());
        assert forall|i: int| 0 <= i < req.len() implies has_name(m, lower_of(#[trigger] req[i]))
            || archive_texture(archives.last(), req[i]) is None by {
            assert(archives.last() == archives[archives.len() - 1]);
        }
        lemma_load_archive_settled(m, req, archives.last());
    }
}

/// Resolving a second time against the same archives changes nothing.
pub proof fn lemma_resolve_idempotent(
    m: Seq<NamedTextureView>,
    req: Seq<Seq<u8>>,
    archives: Seq<Seq<EntryView>>,
)
    ensures
        resolve(resolve(m, req, archives), req, archives) == resolve(m, req, archives),
{
    lemma_resolve_settles(m, req, archives);
    lemma_resolve_settled(resolve(m, req, archives), req, archives);
}

} // verus!
