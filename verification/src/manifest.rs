//! Manifest indexing: parse manifest documents, pick out the model-weight
//! layer, derive a display name from the manifest's path, and build the
//! mapping from bare content hash to (joined display name, byte size).

use vstd::prelude::*;

use crate::ascii::{
    library_namespace, library_namespace_bytes, model_media_type, model_media_type_bytes,
    name_sep, name_sep_bytes, sha256_prefix, sha256_prefix_bytes,
};
use crate::bytes::{bytes_eq, is_prefix, starts_with};

verus! {

/// One layer descriptor of a manifest: a media-type tag, a content digest
/// (possibly in the prefixed `sha256:<hex>` form), and a byte size.
pub struct Layer {
    pub media_type: Vec<u8>,
    pub digest: Vec<u8>,
    pub size: u64,
}

impl View for Layer {
    type V = (Seq<u8>, Seq<u8>, u64);

    open spec fn view(&self) -> Self::V {
        (self.media_type@, self.digest@, self.size)
    }
}

/// The layers of the manifest document held in a byte string, when the
/// bytes parse as a manifest: a JSON object with a `layers` array whose
/// records carry `mediaType`, `digest` and `size` fields. The result is a
/// function of the bytes alone.
pub uninterp spec fn manifest_layers_of(s: Seq<u8>) -> Option<Seq<(Seq<u8>, Seq<u8>, u64)>>;

/// Relies on serde_json::from_slice: whether the bytes parse as a JSON
/// manifest carrying a `layers` array of `{mediaType, digest, size}`
/// records, and what those records hold, depend on the bytes alone.
#[verifier::external_body]
fn parse_manifest_bytes(s: &[u8]) -> (r: Option<Vec<Layer>>)
    ensures
        match r {
            Some(v) => manifest_layers_of(s@) == Some(
                v@.map_values(|l: Layer| (l.media_type@, l.digest@, l.size)),
            ),
            None => manifest_layers_of(s@) is None,
        },
{
    let doc: serde_json::Value = serde_json::from_slice(s).ok()?;
    let layers = doc.get("layers")?.as_array()?;
    let mut out = Vec::new();
    for l in layers {
        out.push(Layer {
            media_type: l.get("mediaType")?.as_str()?.as_bytes().to_vec(),
            digest: l.get("digest")?.as_str()?.as_bytes().to_vec(),
            size: l.get("size")?.as_u64()?,
        });
    }
    Some(out)
}

/// The digest with a leading `sha256:` stripped, if one is there.
pub open spec fn spec_normalize_digest(d: Seq<u8>) -> Seq<u8> {
    if is_prefix(d, sha256_prefix()) {
        d.skip(sha256_prefix().len() as int)
    } else {
        d
    }
}

/// Law: normalizing a digest that does not carry the `sha256:` prefix
/// leaves it unchanged.
pub proof fn lemma_normalize_unprefixed_digest(d: Seq<u8>)
    requires
        !is_prefix(d, sha256_prefix()),
    ensures
        spec_normalize_digest(d) == d,
{
}

/// Strip a leading `sha256:` from a digest, if one is there.
pub fn normalize_digest(d: &[u8]) -> (r: Vec<u8>)
    ensures
        r@ == spec_normalize_digest(d@),
{
    let p = sha256_prefix_bytes();
    if starts_with(d, p.as_slice()) {
        let tail = vstd::slice::slice_subrange(d, p.len(), d.len());
        vstd::slice::slice_to_vec(tail)
    } else {
        vstd::slice::slice_to_vec(d)
    }
}

/// The first layer whose media type marks the model-weight blob, if any.
pub open spec fn spec_find_model_layer(ls: Seq<(Seq<u8>, Seq<u8>, u64)>) -> Option<
    (Seq<u8>, Seq<u8>, u64),
>
    decreases ls.len(),
{
    if ls.len() == 0 {
        None
    } else if ls[0].0 == model_media_type() {
        Some(ls[0])
    } else {
        spec_find_model_layer(ls.drop_first())
    }
}

proof fn lemma_find_model_layer_at(ls: Seq<(Seq<u8>, Seq<u8>, u64)>, i: int)
    requires
        0 <= i < ls.len(),
        ls[i].0 == model_media_type(),
        forall|j: int| 0 <= j < i ==> ls[j].0 != model_media_type(),
    ensures
        spec_find_model_layer(ls) == Some(ls[i]),
    decreases ls.len(),
{
    if i > 0 {
        lemma_find_model_layer_at(ls.drop_first(), i - 1);
    }
}

proof fn lemma_find_model_layer_none(ls: Seq<(Seq<u8>, Seq<u8>, u64)>)
    requires
        forall|j: int| 0 <= j < ls.len() ==> ls[j].0 != model_media_type(),
    ensures
        spec_find_model_layer(ls) is None,
    decreases ls.len(),
{
    if ls.len() > 0 {
        lemma_find_model_layer_none(ls.drop_first());
    }
}

/// The view of a sequence of layers.
pub open spec fn layers_view(ls: Seq<Layer>) -> Seq<(Seq<u8>, Seq<u8>, u64)> {
    ls.map_values(|l: Layer| l@)
}

/// Find the first model-weight layer of a parsed manifest.
pub fn find_model_layer(layers: &Vec<Layer>) -> (r: Option<&Layer>)
    ensures
        match r {
            Some(l) => spec_find_model_layer(layers_view(layers@)) == Some(l@),
            None => spec_find_model_layer(layers_view(layers@)) is None,
        },
{
    let mt = model_media_type_bytes();
    let mut i: usize = 0;
    while i < layers.len()
        invariant
            i <= layers@.len(),
            mt@ == model_media_type(),
            forall|j: int| 0 <= j < i ==> layers_view(layers@)[j].0 != model_media_type(),
        decreases layers@.len() - i,
    {
        if bytes_eq(layers[i].media_type.as_slice(), mt.as_slice()) {
            proof {
                lemma_find_model_layer_at(layers_view(layers@), i as int);
            }
            return Some(&layers[i]);
        }
        i += 1;
    }
    proof {
        lemma_find_model_layer_none(layers_view(layers@));
    }
    None
}

/// The views of a sequence of byte vectors.
pub open spec fn views_of(cs: Seq<Vec<u8>>) -> Seq<Seq<u8>> {
    cs.map_values(|c: Vec<u8>| c@)
}

/// The display name derived from the trailing path components of a
/// manifest's path: with components `... registry namespace model tag`,
/// the name is `model:tag` for the default `library` namespace and
/// `namespace/model:tag` otherwise. Paths with fewer than four components
/// derive no name.
pub open spec fn spec_derived_name(cs: Seq<Seq<u8>>) -> Option<Seq<u8>> {
    if cs.len() < 4 {
        None
    } else {
        let user = cs[cs.len() - 3];
        let model = cs[cs.len() - 2];
        let tag = cs[cs.len() - 1];
        if user == library_namespace() {
            Some(model + seq![58u8] + tag)
        } else {
            Some(user + seq![47u8] + model + seq![58u8] + tag)
        }
    }
}

/// Derive the display name from a manifest path, given as its path
/// components in order.
pub fn parse_manifest_path(components: &Vec<Vec<u8>>) -> (r: Option<Vec<u8>>)
    ensures
        match r {
            Some(n) => spec_derived_name(views_of(components@)) == Some(n@),
            None => spec_derived_name(views_of(components@)) is None,
        },
{
    let len = components.len();
    if len < 4 {
        return None;
    }
    let user = &components[len - 3];
    let model = &components[len - 2];
    let tag = &components[len - 1];
    let lib = library_namespace_bytes();
    let mut out: Vec<u8> = Vec::new();
    if !bytes_eq(user.as_slice(), lib.as_slice()) {
        out.extend_from_slice(user.as_slice());
        out.push(47);
    }
    out.extend_from_slice(model.as_slice());
    out.push(58);
    out.extend_from_slice(tag.as_slice());
    proof {
        let cs = views_of(components@);
        if user@ == library_namespace() {
            assert(out@ =~= cs[cs.len() - 2] + seq![58u8] + cs[cs.len() - 1]);
        } else {
            assert(out@ =~= cs[cs.len() - 3] + seq![47u8] + cs[cs.len() - 2] + seq![58u8]
                + cs[cs.len() - 1]);
        }
    }
    Some(out)
}

/// One entry of the hash index: a bare content hash, the comma-joined
/// display name, and the byte size of the model layer.
pub struct IndexEntry {
    pub hash: Vec<u8>,
    pub name: Vec<u8>,
    pub size: u64,
}

impl View for IndexEntry {
    type V = (Seq<u8>, Seq<u8>, u64);

    open spec fn view(&self) -> Self::V {
        (self.hash@, self.name@, self.size)
    }
}

/// The mapping from bare content hash to (joined display name, size).
pub struct ModelIndex {
    pub entries: Vec<IndexEntry>,
}

/// The view of the index: its entries, in insertion order.
pub open spec fn index_view(entries: Seq<IndexEntry>) -> Seq<(Seq<u8>, Seq<u8>, u64)> {
    entries.map_values(|e: IndexEntry| e@)
}

/// The entry for hash `h`, if any: its (name, size) pair.
pub open spec fn spec_lookup(s: Seq<(Seq<u8>, Seq<u8>, u64)>, h: Seq<u8>) -> Option<
    (Seq<u8>, u64),
>
    decreases s.len(),
{
    if s.len() == 0 {
        None
    } else if s[0].0 == h {
        Some((s[0].1, s[0].2))
    } else {
        spec_lookup(s.drop_first(), h)
    }
}

proof fn lemma_spec_lookup_at(s: Seq<(Seq<u8>, Seq<u8>, u64)>, h: Seq<u8>, i: int)
    requires
        0 <= i < s.len(),
        s[i].0 == h,
        forall|j: int| 0 <= j < i ==> s[j].0 != h,
    ensures
        spec_lookup(s, h) == Some((s[i].1, s[i].2)),
    decreases s.len(),
{
    if i > 0 {
        lemma_spec_lookup_at(s.drop_first(), h, i - 1);
    }
}

proof fn lemma_spec_lookup_none(s: Seq<(Seq<u8>, Seq<u8>, u64)>, h: Seq<u8>)
    requires
        forall|j: int| 0 <= j < s.len() ==> s[j].0 != h,
    ensures
        spec_lookup(s, h) is None,
    decreases s.len(),
{
    if s.len() > 0 {
        lemma_spec_lookup_none(s.drop_first(), h);
    }
}

/// The index after recording a manifest for hash `h` with display name `n`
/// and size `sz`: an existing entry for `h` has `n` appended to its joined
/// name (after a separator) and its size overwritten; otherwise a new
/// entry is added at the end.
pub open spec fn spec_insert(
    s: Seq<(Seq<u8>, Seq<u8>, u64)>,
    h: Seq<u8>,
    n: Seq<u8>,
    sz: u64,
) -> Seq<(Seq<u8>, Seq<u8>, u64)>
    decreases s.len(),
{
    if s.len() == 0 {
        seq![(h, n, sz)]
    } else if s[0].0 == h {
        seq![(h, s[0].1 + name_sep() + n, sz)] + s.drop_first()
    } else {
        seq![s[0]] + spec_insert(s.drop_first(), h, n, sz)
    }
}

proof fn lemma_spec_insert_at(s: Seq<(Seq<u8>, Seq<u8>, u64)>, h: Seq<u8>, n: Seq<u8>, sz: u64, i: int)
    requires
        0 <= i < s.len(),
        s[i].0 == h,
        forall|j: int| 0 <= j < i ==> s[j].0 != h,
    ensures
        spec_insert(s, h, n, sz) =~= s.update(i, (h, s[i].1 + name_sep() + n, sz)),
    decreases s.len(),
{
    if i == 0 {
        assert(seq![(h, s[0].1 + name_sep() + n, sz)] + s.drop_first() =~= s.update(
            0,
            (h, s[0].1 + name_sep() + n, sz),
        ));
    } else {
        lemma_spec_insert_at(s.drop_first(), h, n, sz, i - 1);
        assert(seq![s[0]] + spec_insert(s.drop_first(), h, n, sz) =~= s.update(
            i,
            (h, s[i].1 + name_sep() + n, sz),
        ));
    }
}

proof fn lemma_spec_insert_none(s: Seq<(Seq<u8>, Seq<u8>, u64)>, h: Seq<u8>, n: Seq<u8>, sz: u64)
    requires
        forall|j: int| 0 <= j < s.len() ==> s[j].0 != h,
    ensures
        spec_insert(s, h, n, sz) =~= s.push((h, n, sz)),
    decreases s.len(),
{
    if s.len() > 0 {
        lemma_spec_insert_none(s.drop_first(), h, n, sz);
        assert(seq![s[0]] + spec_insert(s.drop_first(), h, n, sz) =~= s.push((h, n, sz)));
    }
}

impl ModelIndex {
    /// The hash is the unique join key: no two entries share one.
    pub open spec fn wf(&self) -> bool {
        forall|i: int, j: int|
            0 <= i < j < self.entries@.len() ==> self.entries@[i].hash@ != self.entries@[j].hash@
    }

    /// The view of the index.
    pub open spec fn view_entries(&self) -> Seq<(Seq<u8>, Seq<u8>, u64)> {
        index_view(self.entries@)
    }

    /// An empty index.
    pub fn new() -> (r: ModelIndex)
        ensures
            r.wf(),
            r.view_entries() =~= Seq::<(Seq<u8>, Seq<u8>, u64)>::empty(),
    {
        ModelIndex { entries: Vec::new() }
    }

    fn find_pos(&self, hash: &[u8]) -> (r: Option<usize>)
        ensures
            match r {
                Some(i) => i < self.entries@.len() && self.entries@[i as int].hash@ == hash@
                    && forall|j: int| 0 <= j < i ==> self.entries@[j].hash@ != hash@,
                None => forall|j: int|
                    0 <= j < self.entries@.len() ==> self.entries@[j].hash@ != hash@,
            },
    {
        let mut i: usize = 0;
        while i < self.entries.len()
            invariant
                i <= self.entries@.len(),
                forall|j: int| 0 <= j < i ==> self.entries@[j].hash@ != hash@,
            decreases self.entries@.len() - i,
        {
            if bytes_eq(self.entries[i].hash.as_slice(), hash) {
                return Some(i);
            }
            i += 1;
        }
        None
    }

    /// Look a hash up: the joined display name and the size, if indexed.
    pub fn lookup(&self, hash: &[u8]) -> (r: Option<(Vec<u8>, u64)>)
        ensures
            match r {
                Some(p) => spec_lookup(self.view_entries(), hash@) == Some((p.0@, p.1)),
                None => spec_lookup(self.view_entries(), hash@) is None,
            },
    {
        match self.find_pos(hash) {
            Some(i) => {
                proof {
                    lemma_spec_lookup_at(self.view_entries(), hash@, i as int);
                }
                let name = self.entries[i].name.clone();
                let size = self.entries[i].size;
                assert(name@ =~= self.entries@[i as int].name@);
                Some((name, size))
            },
            None => {
                proof {
                    lemma_spec_lookup_none(self.view_entries(), hash@);
                }
                None
            },
        }
    }

    /// Record one manifest occurrence of `hash` under display name `name`
    /// with model-layer size `size`, with the merge policy of the index:
    /// append to the joined name of an existing entry and overwrite its
    /// size, or add a fresh entry.
    pub fn insert(&mut self, hash: Vec<u8>, name: Vec<u8>, size: u64)
        requires
            old(self).wf(),
        ensures
            final(self).wf(),
            final(self).view_entries() == spec_insert(
                old(self).view_entries(),
                hash@,
                name@,
                size,
            ),
    {
        let ghost pre = self.view_entries();
        match self.find_pos(hash.as_slice()) {
            Some(i) => {
                proof {
                    lemma_spec_insert_at(pre, hash@, name@, size, i as int);
                }
                let mut e = self.entries.remove(i);
                let mut sep = name_sep_bytes();
                let mut nm = name;
                e.name.append(&mut sep);
                e.name.append(&mut nm);
                e.size = size;
                self.entries.insert(i, e);
                proof {
                    assert(self.entries@ =~= old(self).entries@.update(
                        i as int,
                        self.entries@[i as int],
                    ));
                    assert(self.view_entries() =~= spec_insert(pre, hash@, name@, size));
                }
            },
            None => {
                proof {
                    lemma_spec_insert_none(pre, hash@, name@, size);
                }
                self.entries.push(IndexEntry { hash, name, size });
                proof {
                    assert(self.view_entries() =~= spec_insert(pre, hash@, name@, size));
                }
            },
        }
    }
}

/// What one manifest file contributes to the index: nothing unless its
/// bytes parse as a manifest with a model-weight layer and its path
/// derives a display name; otherwise one insertion of the normalized
/// digest under that name, with the layer's size.
pub open spec fn spec_index_manifest(
    s: Seq<(Seq<u8>, Seq<u8>, u64)>,
    content: Seq<u8>,
    cs: Seq<Seq<u8>>,
) -> Seq<(Seq<u8>, Seq<u8>, u64)> {
    match manifest_layers_of(content) {
        Some(ls) => match spec_find_model_layer(ls) {
            Some(l) => match spec_derived_name(cs) {
                Some(n) => spec_insert(s, spec_normalize_digest(l.1), n, l.2),
                None => s,
            },
            None => s,
        },
        None => s,
    }
}

/// One manifest file, as handed to the indexer: the path components of
/// the file and its raw content bytes.
pub struct ManifestSource {
    pub components: Vec<Vec<u8>>,
    pub content: Vec<u8>,
}

impl View for ManifestSource {
    type V = (Seq<Seq<u8>>, Seq<u8>);

    open spec fn view(&self) -> Self::V {
        (views_of(self.components@), self.content@)
    }
}

/// The index built from a sequence of manifest files, processed in order.
pub open spec fn spec_build_index(ms: Seq<(Seq<Seq<u8>>, Seq<u8>)>) -> Seq<
    (Seq<u8>, Seq<u8>, u64),
>
    decreases ms.len(),
{
    if ms.len() == 0 {
        Seq::empty()
    } else {
        spec_index_manifest(spec_build_index(ms.drop_last()), ms.last().1, ms.last().0)
    }
}

impl ModelIndex {
    /// Apply one manifest file to the index.
    pub fn index_manifest(&mut self, m: &ManifestSource)
        requires
            old(self).wf(),
        ensures
            final(self).wf(),
            final(self).view_entries() == spec_index_manifest(
                old(self).view_entries(),
                m@.1,
                m@.0,
            ),
    {
        let parsed = parse_manifest_bytes(m.content.as_slice());
        match parsed {
            Some(layers) => {
                proof {
                    assert(layers@.map_values(|l: Layer| (l.media_type@, l.digest@, l.size))
                        =~= layers_view(layers@));
                }
                match find_model_layer(&layers) {
                    Some(l) => {
                        match parse_manifest_path(&m.components) {
                            Some(n) => {
                                let h = normalize_digest(l.digest.as_slice());
                                let sz = l.size;
                                self.insert(h, n, sz);
                            },
                            None => {},
                        }
                    },
                    None => {},
                }
            },
            None => {},
        }
    }

    /// Build the whole index from manifest files, in the order given.
    pub fn build(manifests: &Vec<ManifestSource>) -> (r: ModelIndex)
        ensures
            r.wf(),
            r.view_entries() == spec_build_index(
                manifests@.map_values(|m: ManifestSource| m@),
            ),
    {
        let ghost msv = manifests@.map_values(|m: ManifestSource| m@);
        let mut idx = ModelIndex::new();
        assert(idx.view_entries() =~= spec_build_index(msv.take(0)));
        let mut i: usize = 0;
        while i < manifests.len()
            invariant
                i <= manifests@.len(),
                msv == manifests@.map_values(|m: ManifestSource| m@),
                idx.wf(),
                idx.view_entries() == spec_build_index(msv.take(i as int)),
            decreases manifests@.len() - i,
        {
            idx.index_manifest(&manifests[i]);
            proof {
                assert(msv.take(i + 1).drop_last() =~= msv.take(i as int));
                assert(msv.take(i + 1).last() == msv[i as int]);
            }
            i += 1;
        }
        proof {
            assert(msv.take(manifests@.len() as int) =~= msv);
        }
        idx
    }
}

} // verus!
