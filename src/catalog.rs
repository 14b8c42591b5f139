use vstd::prelude::*;
use crate::sprite::{Sprite, SpriteModel, models, strs};

verus! {

pub struct CollectionModel {
    pub name: Seq<char>,
    pub atlas_path: Seq<char>,
    pub sprites: Seq<SpriteModel>,
}

/// The sprites that share one atlas image.
#[derive(Clone, Debug)]
pub struct Collection {
    pub name: String,
    pub atlas_path: String,
    pub sprites: Vec<Sprite>,
}

impl View for Collection {
    type V = CollectionModel;

    open spec fn view(&self) -> CollectionModel {
        CollectionModel { name: self.name@, atlas_path: self.atlas_path@, sprites: models(self.sprites@) }
    }
}

/// One animation cycle: its frames in on-disk order, and the frame index the
/// cycle returns to. The playback rate is kept by the viewer.
#[derive(Clone, Debug)]
pub struct Clip {
    pub name: String,
    pub frames: Vec<Sprite>,
    pub loop_start: u32,
}

/// An animation: one directory under the sprites root, one clip per
/// subdirectory.
#[derive(Clone, Debug)]
pub struct Animation {
    pub name: String,
    pub clips: Vec<Clip>,
}

pub open spec fn cmodels(v: Seq<Collection>) -> Seq<CollectionModel> {
    v.map_values(|c: Collection| c@)
}

pub open spec fn is_sep(c: char) -> bool {
    c == '/' || c == '\\'
}

/// A manifest path with one leading `./` or `.\` taken off.
pub open spec fn normalized(p: Seq<char>) -> Seq<char> {
    if p.len() >= 2 && p[0] == '.' && is_sep(p[1]) {
        p.subrange(2, p.len() as int)
    } else {
        p
    }
}

/// `p` is a non-empty trailing run of whole components of `f`; the two
/// separators count as one.
pub open spec fn path_suffix(p: Seq<char>, f: Seq<char>) -> bool {
    let d = f.len() - p.len();
    0 < p.len() <= f.len() && (forall|k: int|
        0 <= k < p.len() ==> #[trigger] p[k] == f[d + k] || (is_sep(p[k]) && is_sep(f[d + k])))
        && (d == 0 || is_sep(f[d - 1]))
}

/// Manifest entry `k` names the frame at `f`.
pub open spec fn entry_matches(paths: Seq<String>, k: int, f: Seq<char>) -> bool {
    path_suffix(normalized(paths[k]@), f)
}

fn normalized_chars(p: &str) -> (r: Vec<char>)
    ensures
        r@ == normalized(p@),
{
    let n = p.unicode_len();
    let start: usize = if n >= 2 && p.get_char(0) == '.' && (p.get_char(1) == '/' || p.get_char(1)
        == '\\') {
        2
    } else {
        0
    };
    let mut r: Vec<char> = Vec::new();
    let mut k: usize = start;
    while k < n
        invariant
            start <= k <= n,
            n == p@.len(),
            r@ == p@.subrange(start as int, k as int),
        decreases n - k,
    {
        r.push(p.get_char(k));
        proof {
            assert(r@ =~= p@.subrange(start as int, k as int + 1));
        }
        k += 1;
    }
    proof {
        assert(r@ =~= normalized(p@));
    }
    r
}

fn suffix_matches(p: &Vec<char>, f: &Vec<char>) -> (r: bool)
    ensures
        r == path_suffix(p@, f@),
{
    if p.len() == 0 || p.len() > f.len() {
        return false;
    }
    let d = f.len() - p.len();
    if d > 0 && !(f[d - 1] == '/' || f[d - 1] == '\\') {
        return false;
    }
    let mut k: usize = 0;
    while k < p.len()
        invariant
            d == f.len() - p.len(),
            k <= p.len(),
            forall|k2: int|
                0 <= k2 < k ==> #[trigger] p@[k2] == f@[d + k2] || (is_sep(p@[k2]) && is_sep(f@[d + k2])),
        decreases p.len() - k,
    {
        let a = p[k];
        let b = f[d + k];
        if !(a == b || ((a == '/' || a == '\\') && (b == '/' || b == '\\'))) {
            return false;
        }
        k += 1;
    }
    true
}

fn chars_of(s: &str) -> (r: Vec<char>)
    ensures
        r@ == s@,
{
    let n = s.unicode_len();
    let mut r: Vec<char> = Vec::new();
    let mut k: usize = 0;
    while k < n
        invariant
            k <= n,
            n == s@.len(),
            r@ == s@.subrange(0, k as int),
        decreases n - k,
    {
        r.push(s.get_char(k));
        proof {
            assert(r@ =~= s@.subrange(0, k as int + 1));
        }
        k += 1;
    }
    proof {
        assert(r@ =~= s@);
    }
    r
}

/// Entry `b` matches the frame path, and every matching entry is shorter
/// than it, or as long and not before it.
pub open spec fn is_best_entry(paths: Seq<String>, f: Seq<char>, b: int) -> bool {
    &&& 0 <= b < paths.len()
    &&& entry_matches(paths, b, f)
    &&& forall|k: int|
        0 <= k < paths.len() && entry_matches(paths, k, f) ==> (normalized(paths[k]@).len()
            < normalized(paths[b]@).len() || (normalized(paths[k]@).len() == normalized(
            paths[b]@,
        ).len() && b <= k))
}

/// Of two matching entries where one path is longer, the shorter one is
/// never chosen.
pub proof fn lemma_longer_match_wins(paths: Seq<String>, f: Seq<char>, b: int, short: int, long: int)
    requires
        is_best_entry(paths, f, b),
        0 <= short < paths.len(),
        0 <= long < paths.len(),
        entry_matches(paths, short, f),
        entry_matches(paths, long, f),
        normalized(paths[short]@).len() < normalized(paths[long]@).len(),
    ensures
        b != short,
{
}

/// The manifest entry that names the frame at `frame_path`: among the entries
/// whose normalized path is a trailing run of components of the frame path,
/// the longest, and of equally long ones the first. `None` where no entry
/// matches.
pub fn find_manifest_index(paths: &Vec<String>, frame_path: &str) -> (r: Option<usize>)
    ensures
        r.is_none() == (forall|k: int| 0 <= k < paths.len() ==> !entry_matches(paths@, k, frame_path@)),
        r.is_some() ==> is_best_entry(paths@, frame_path@, r.unwrap() as int),
{
    let f = chars_of(frame_path);
    let mut best: Option<usize> = None;
    let mut best_len: usize = 0;
    let mut k: usize = 0;
    while k < paths.len()
        invariant
            k <= paths.len(),
            f@ == frame_path@,
            best.is_none() == (forall|k2: int| 0 <= k2 < k ==> !entry_matches(paths@, k2, frame_path@)),
            best.is_some() ==> ({
                let b = best.unwrap() as int;
                &&& 0 <= b < k
                &&& entry_matches(paths@, b, frame_path@)
                &&& best_len == normalized(paths@[b]@).len()
                &&& forall|k2: int|
                    0 <= k2 < k && entry_matches(paths@, k2, frame_path@) ==> (normalized(
                        paths@[k2]@,
                    ).len() < best_len || (normalized(paths@[k2]@).len() == best_len && b <= k2))
            }),
        decreases paths.len() - k,
    {
        let p = normalized_chars(paths[k].as_str());
        let m = suffix_matches(&p, &f);
        proof {
            assert(m == entry_matches(paths@, k as int, frame_path@));
        }
        if m {
            if best.is_none() || p.len() > best_len {
                best = Some(k);
                best_len = p.len();
            }
        }
        k += 1;
    }
    best
}

/// Adds `sprite` to the first collection named as its `collection_name`,
/// or, where there is none, appends a new collection of that name holding
/// only this sprite, with atlas image `atlas_path`.
pub fn merge_sprite(collections: &mut Vec<Collection>, sprite: Sprite, atlas_path: String)
    ensures
        ({
            let old_c = cmodels(old(collections)@);
            let new_c = cmodels(final(collections)@);
            match first_named(old_c, sprite.collection_name@, old_c.len() as nat) {
                Some(k) => new_c == old_c.update(
                    k,
                    CollectionModel { sprites: old_c[k].sprites.push(sprite@), ..old_c[k] },
                ),
                None => new_c == old_c.push(
                    CollectionModel {
                        name: sprite.collection_name@,
                        atlas_path: atlas_path@,
                        sprites: seq![sprite@],
                    },
                ),
            }
        }),
{
    let ghost old_c = cmodels(collections@);
    let found = position_of_collection(collections, &sprite.collection_name);
    proof {
        lemma_first_named_bound(old_c, sprite.collection_name@, old_c.len() as nat);
    }
    match found {
        Some(k) => {
            let mut c = collections.remove(k);
            let ghost s0 = c.sprites@;
            c.sprites.push(sprite);
            proof {
                assert(models(c.sprites@) =~= models(s0).push(c.sprites@.last()@));
            }
            collections.insert(k, c);
            proof {
                assert(cmodels(collections@) =~= old_c.update(
                    k as int,
                    CollectionModel { sprites: old_c[k as int].sprites.push(sprite@), ..old_c[k as int] },
                ));
            }
        },
        None => {
            let name = sprite.collection_name.clone();
            let mut sprites: Vec<Sprite> = Vec::new();
            sprites.push(sprite);
            proof {
                assert(models(sprites@) =~= seq![sprite@]);
            }
            collections.push(Collection { name, atlas_path, sprites });
            proof {
                assert(cmodels(collections@) =~= old_c.push(
                    CollectionModel { name: sprite.collection_name@, atlas_path: atlas_path@, sprites: seq![sprite@] },
                ));
            }
        },
    }
}

/// The position of the first of the first `n` collections named `name`.
pub open spec fn first_named(c: Seq<CollectionModel>, name: Seq<char>, n: nat) -> Option<int>
    decreases n,
{
    if n == 0 {
        None
    } else {
        match first_named(c, name, (n - 1) as nat) {
            Some(k) => Some(k),
            None => if c[n - 1].name == name {
                Some(n - 1)
            } else {
                None
            },
        }
    }
}

proof fn lemma_first_named_some(c: Seq<CollectionModel>, name: Seq<char>, m: nat, n: nat)
    requires
        m <= n,
        first_named(c, name, m).is_some(),
    ensures
        first_named(c, name, n) == first_named(c, name, m),
    decreases n - m,
{
    if m < n {
        lemma_first_named_some(c, name, m, (n - 1) as nat);
    }
}

proof fn lemma_first_named_bound(c: Seq<CollectionModel>, name: Seq<char>, n: nat)
    requires
        n <= c.len(),
    ensures
        first_named(c, name, n) matches Some(k) ==> 0 <= k < n && c[k].name == name,
    decreases n,
{
    if n > 0 {
        lemma_first_named_bound(c, name, (n - 1) as nat);
    }
}

/// The position of the first collection named `name`, where there is one.
pub fn position_of_collection(collections: &Vec<Collection>, name: &String) -> (r: Option<usize>)
    ensures
        r == (match first_named(cmodels(collections@), name@, collections.len() as nat) {
            Some(k) => Some(k as usize),
            None => None::<usize>,
        }),
        r matches Some(k) ==> k < collections.len() && collections@[k as int].name@ == name@,
{
    let ghost c = cmodels(collections@);
    let mut k: usize = 0;
    while k < collections.len()
        invariant
            k <= collections.len(),
            c == cmodels(collections@),
            first_named(c, name@, k as nat).is_none(),
        decreases collections.len() - k,
    {
        if collections[k].name == *name {
            proof {
                assert(c[k as int].name == name@);
                lemma_first_named_some(c, name@, (k + 1) as nat, collections.len() as nat);
            }
            return Some(k);
        }
        k += 1;
    }
    None
}

/// A frame file on disk that no manifest entry names.
#[derive(Debug)]
pub enum LinkError {
    CorpusLink,
}

/// The manifest entry that names the frame at `f`, where one does.
pub open spec fn best_for(paths: Seq<String>, f: Seq<char>) -> Option<int> {
    if exists|b: int| is_best_entry(paths, f, b) {
        Some(choose|b: int| is_best_entry(paths, f, b))
    } else {
        None
    }
}

/// The frame at `f` has a manifest entry, complete in every column.
pub open spec fn linkable(info: crate::sprite::InfoModel, paths: Seq<String>, f: Seq<char>) -> bool {
    best_for(paths, f) matches Some(b) && info.has_index(b)
}

/// The sprites of a clip's frame files, in the order given: each file is
/// linked to its manifest entry (see `find_manifest_index`). Fails where a
/// file has no entry, or its entry is not complete in every column.
pub fn link_frames(info: &crate::sprite::SpriteInfo, frame_paths: &Vec<String>) -> (r: Result<Vec<Sprite>, LinkError>)
    ensures
        r.is_ok() == (forall|m: int| 0 <= m < frame_paths.len() ==> #[trigger] linkable(info@, info.path@, frame_paths@[m]@)),
        r matches Ok(v) ==> v.len() == frame_paths.len() && forall|m: int| 0 <= m < frame_paths.len() ==> #[trigger] v@[m]@ == info@.sprite_at(best_for(info.path@, frame_paths@[m]@).unwrap()),
{
    let mut v: Vec<Sprite> = Vec::new();
    let mut m: usize = 0;
    while m < frame_paths.len()
        invariant
            m <= frame_paths.len(),
            v.len() == m,
            forall|m2: int| 0 <= m2 < m ==> #[trigger] linkable(info@, info.path@, frame_paths@[m2]@),
            forall|m2: int| 0 <= m2 < m ==> #[trigger] v@[m2]@ == info@.sprite_at(best_for(info.path@, frame_paths@[m2]@).unwrap()),
        decreases frame_paths.len() - m,
    {
        let found = find_manifest_index(&info.path, frame_paths[m].as_str());
        match found {
            None => {
                proof {
                    assert(!linkable(info@, info.path@, frame_paths@[m as int]@)) by {
                        if exists|b: int| is_best_entry(info.path@, frame_paths@[m as int]@, b) {
                            let b = choose|b: int| is_best_entry(info.path@, frame_paths@[m as int]@, b);
                            assert(entry_matches(info.path@, b, frame_paths@[m as int]@));
                        }
                    }
                }
                return Err(LinkError::CorpusLink);
            },
            Some(b) => {
                proof {
                    lemma_best_entry_unique(info.path@, frame_paths@[m as int]@, b as int);
                    assert(best_for(info.path@, frame_paths@[m as int]@) == Some(b as int));
                }
                match info.at(b) {
                    None => {
                        proof {
                            assert(!linkable(info@, info.path@, frame_paths@[m as int]@));
                        }
                        return Err(LinkError::CorpusLink);
                    },
                    Some(sp) => {
                        v.push(sp);
                    },
                }
            },
        }
        m += 1;
    }
    Ok(v)
}

/// There is at most one best entry.
proof fn lemma_best_entry_unique(paths: Seq<String>, f: Seq<char>, b: int)
    requires
        is_best_entry(paths, f, b),
    ensures
        forall|b2: int| #[trigger] is_best_entry(paths, f, b2) ==> b2 == b,
{
    assert forall|b2: int| #[trigger] is_best_entry(paths, f, b2) implies b2 == b by {
        assert(entry_matches(paths, b, f));
        assert(entry_matches(paths, b2, f));
    }
}

/// An animation shows sprites of the named collection.
pub open spec fn uses_collection(a: Animation, name: Seq<char>) -> bool {
    exists|c: int, f: int|
        0 <= c < a.clips@.len() && 0 <= f < a.clips@[c].frames@.len()
            && #[trigger] a.clips@[c].frames@[f].collection_name@ == name
}

/// The position of the first animation that shows sprites of the named
/// collection, where there is one.
pub fn position_of_animation_for(animations: &Vec<Animation>, name: &String) -> (r: Option<usize>)
    ensures
        r.is_none() == (forall|k: int| 0 <= k < animations.len() ==> !uses_collection(#[trigger] animations@[k], name@)),
        r matches Some(k) ==> k < animations.len() && uses_collection(animations@[k as int], name@)
            && forall|k2: int| 0 <= k2 < k ==> !uses_collection(#[trigger] animations@[k2], name@),
{
    let mut k: usize = 0;
    while k < animations.len()
        invariant
            k <= animations.len(),
            forall|k2: int| 0 <= k2 < k ==> !uses_collection(#[trigger] animations@[k2], name@),
        decreases animations.len() - k,
    {
        let a = &animations[k];
        let mut c: usize = 0;
        while c < a.clips.len()
            invariant
                k < animations.len(),
                *a == animations@[k as int],
                forall|k2: int| 0 <= k2 < k ==> !uses_collection(#[trigger] animations@[k2], name@),
                c <= a.clips.len(),
                forall|c2: int, f2: int| 0 <= c2 < c && 0 <= f2 < a.clips@[c2].frames@.len() ==> #[trigger] a.clips@[c2].frames@[f2].collection_name@ != name@,
            decreases a.clips.len() - c,
        {
            let clip = &a.clips[c];
            let mut f: usize = 0;
            while f < clip.frames.len()
                invariant
                    k < animations.len(),
                    *a == animations@[k as int],
                    forall|k2: int| 0 <= k2 < k ==> !uses_collection(#[trigger] animations@[k2], name@),
                    c < a.clips.len(),
                    *clip == a.clips@[c as int],
                    forall|c2: int, f2: int| 0 <= c2 < c && 0 <= f2 < a.clips@[c2].frames@.len() ==> #[trigger] a.clips@[c2].frames@[f2].collection_name@ != name@,
                    f <= clip.frames.len(),
                    forall|f2: int| 0 <= f2 < f ==> #[trigger] clip.frames@[f2].collection_name@ != name@,
                decreases clip.frames.len() - f,
            {
                if clip.frames[f].collection_name == *name {
                    proof {
                        assert(a.clips@[c as int].frames@[f as int].collection_name@ == name@);
                    }
                    return Some(k);
                }
                f += 1;
            }
            c += 1;
        }
        proof {
            assert(!uses_collection(animations@[k as int], name@));
        }
        k += 1;
    }
    None
}

/// A collection holds a sprite of the given name.
pub open spec fn holds_sprite_named(c: Collection, name: Seq<char>) -> bool {
    exists|f: int| 0 <= f < c.sprites@.len() && #[trigger] c.sprites@[f].name@ == name
}

/// The position of the first collection that holds a sprite of the given name.
pub fn collection_of_sprite_name(collections: &Vec<Collection>, name: &String) -> (r: Option<usize>)
    ensures
        r.is_none() == (forall|k: int| 0 <= k < collections.len() ==> !holds_sprite_named(#[trigger] collections@[k], name@)),
        r matches Some(k) ==> k < collections.len() && holds_sprite_named(collections@[k as int], name@)
            && forall|k2: int| 0 <= k2 < k ==> !holds_sprite_named(#[trigger] collections@[k2], name@),
{
    let mut k: usize = 0;
    while k < collections.len()
        invariant
            k <= collections.len(),
            forall|k2: int| 0 <= k2 < k ==> !holds_sprite_named(#[trigger] collections@[k2], name@),
        decreases collections.len() - k,
    {
        let c = &collections[k];
        let mut f: usize = 0;
        while f < c.sprites.len()
            invariant
                k < collections.len(),
                *c == collections@[k as int],
                forall|k2: int| 0 <= k2 < k ==> !holds_sprite_named(#[trigger] collections@[k2], name@),
                f <= c.sprites.len(),
                forall|f2: int| 0 <= f2 < f ==> #[trigger] c.sprites@[f2].name@ != name@,
            decreases c.sprites.len() - f,
        {
            if c.sprites[f].name == *name {
                proof {
                    assert(c.sprites@[f as int].name@ == name@);
                }
                return Some(k);
            }
            f += 1;
        }
        proof {
            assert(!holds_sprite_named(collections@[k as int], name@));
        }
        k += 1;
    }
    None
}

/// The first clip of an animation that has a frame of the given name, and
/// that frame's position in it.
pub fn clip_with_frame(animation: &Animation, name: &String) -> (r: Option<(usize, usize)>)
    ensures
        r.is_none() == (forall|c: int, f: int| 0 <= c < animation.clips@.len() && 0 <= f < animation.clips@[c].frames@.len() ==> #[trigger] animation.clips@[c].frames@[f].name@ != name@),
        r matches Some((c, f)) ==> c < animation.clips.len() && f < animation.clips@[c as int].frames.len()
            && animation.clips@[c as int].frames@[f as int].name@ == name@
            && (forall|c2: int, f2: int| 0 <= c2 < c && 0 <= f2 < animation.clips@[c2].frames@.len() ==> #[trigger] animation.clips@[c2].frames@[f2].name@ != name@)
            && (forall|f2: int| 0 <= f2 < f ==> #[trigger] animation.clips@[c as int].frames@[f2].name@ != name@),
{
    let mut c: usize = 0;
    while c < animation.clips.len()
        invariant
            c <= animation.clips.len(),
            forall|c2: int, f2: int| 0 <= c2 < c && 0 <= f2 < animation.clips@[c2].frames@.len() ==> #[trigger] animation.clips@[c2].frames@[f2].name@ != name@,
        decreases animation.clips.len() - c,
    {
        let clip = &animation.clips[c];
        let mut f: usize = 0;
        while f < clip.frames.len()
            invariant
                c < animation.clips.len(),
                *clip == animation.clips@[c as int],
                forall|c2: int, f2: int| 0 <= c2 < c && 0 <= f2 < animation.clips@[c2].frames@.len() ==> #[trigger] animation.clips@[c2].frames@[f2].name@ != name@,
                f <= clip.frames.len(),
                forall|f2: int| 0 <= f2 < f ==> #[trigger] clip.frames@[f2].name@ != name@,
            decreases clip.frames.len() - f,
        {
            if clip.frames[f].name == *name {
                return Some((c, f));
            }
            f += 1;
        }
        c += 1;
    }
    None
}

/// The first of the first `n` sprites whose id is `id`.
pub open spec fn first_with_id(s: Seq<SpriteModel>, id: u32, n: nat) -> Option<SpriteModel>
    decreases n,
{
    if n == 0 {
        None
    } else {
        match first_with_id(s, id, (n - 1) as nat) {
            Some(m) => Some(m),
            None => if s[n - 1].id == id {
                Some(s[n - 1])
            } else {
                None
            },
        }
    }
}

/// The first sprite with the same id as `c` in the collection that `c`
/// names.
pub open spec fn original_of(cols: Seq<CollectionModel>, c: SpriteModel) -> Option<SpriteModel> {
    match first_named(cols, c.collection_name, cols.len() as nat) {
        Some(k) => first_with_id(cols[k].sprites, c.id, cols[k].sprites.len() as nat),
        None => None,
    }
}

/// For the first `n` changed sprites in order, the originals that are not
/// themselves in the changed list.
pub open spec fn unlisted_originals(cols: Seq<CollectionModel>, changed: Seq<SpriteModel>, n: nat) -> Seq<SpriteModel>
    decreases n,
{
    if n == 0 {
        Seq::empty()
    } else {
        let prev = unlisted_originals(cols, changed, (n - 1) as nat);
        match original_of(cols, changed[n - 1]) {
            Some(o) => if changed.contains(o) {
                prev
            } else {
                prev.push(o)
            },
            None => prev,
        }
    }
}

proof fn lemma_first_with_id_some(s: Seq<SpriteModel>, id: u32, m: nat, n: nat)
    requires
        m <= n,
        first_with_id(s, id, m).is_some(),
    ensures
        first_with_id(s, id, n) == first_with_id(s, id, m),
    decreases n - m,
{
    if m < n {
        lemma_first_with_id_some(s, id, m, (n - 1) as nat);
    }
}

/// The first sprite with id `id`.
fn first_sprite_with_id(sprites: &Vec<Sprite>, id: u32) -> (r: Option<Sprite>)
    ensures
        r.is_some() == first_with_id(models(sprites@), id, sprites.len() as nat).is_some(),
        r matches Some(x) ==> first_with_id(models(sprites@), id, sprites.len() as nat) == Some(x@),
{
    let ghost m = models(sprites@);
    let mut k: usize = 0;
    while k < sprites.len()
        invariant
            k <= sprites.len(),
            m == models(sprites@),
            first_with_id(m, id, k as nat).is_none(),
        decreases sprites.len() - k,
    {
        if sprites[k].id == id {
            let x = sprites[k].copy();
            proof {
                assert(m[k as int] == x@);
                lemma_first_with_id_some(m, id, (k + 1) as nat, sprites.len() as nat);
            }
            return Some(x);
        }
        proof {
            assert(m[k as int].id != id);
        }
        k += 1;
    }
    None
}

/// For each changed sprite in order, the first sprite of its collection with
/// the same id, where there is one and it is not itself in the changed list.
pub fn changed_originals(collections: &Vec<Collection>, changed: &Vec<Sprite>) -> (r: Vec<Sprite>)
    ensures
        models(r@) == unlisted_originals(cmodels(collections@), models(changed@), changed.len() as nat),
{
    let ghost cols = cmodels(collections@);
    let ghost ch = models(changed@);
    let mut r: Vec<Sprite> = Vec::new();
    let mut i: usize = 0;
    while i < changed.len()
        invariant
            i <= changed.len(),
            cols == cmodels(collections@),
            ch == models(changed@),
            models(r@) == unlisted_originals(cols, ch, i as nat),
        decreases changed.len() - i,
    {
        let c = &changed[i];
        proof {
            lemma_first_named_bound(cols, c.collection_name@, cols.len() as nat);
            assert(ch[i as int] == c@);
        }
        if let Some(k) = position_of_collection(collections, &c.collection_name) {
            if let Some(o) = first_sprite_with_id(&collections[k].sprites, c.id) {
                let mut listed = false;
                let mut j: usize = 0;
                while j < changed.len()
                    invariant
                        j <= changed.len(),
                        ch == models(changed@),
                        listed == exists|j2: int| 0 <= j2 < j && ch[j2] == o@,
                    decreases changed.len() - j,
                {
                    if changed[j] == o {
                        listed = true;
                    }
                    proof {
                        assert(ch[j as int] == changed@[j as int]@);
                    }
                    j += 1;
                }
                proof {
                    if listed {
                        let j2 = choose|j2: int| 0 <= j2 < changed.len() && ch[j2] == o@;
                        assert(ch.contains(o@));
                    } else {
                        assert(!ch.contains(o@));
                    }
                }
                if !listed {
                    let ghost prev = models(r@);
                    r.push(o);
                    proof {
                        assert(models(r@) =~= prev.push(o@));
                    }
                }
            }
        }
        i += 1;
    }
    r
}

proof fn lemma_named_is_found(c: Seq<CollectionModel>, name: Seq<char>, k: int, n: nat)
    requires
        0 <= k < n <= c.len(),
        c[k].name == name,
    ensures
        first_named(c, name, n).is_some(),
    decreases n,
{
    if k < n - 1 {
        lemma_named_is_found(c, name, k, (n - 1) as nat);
    }
}

/// The position of the first collection named `name`, which must exist.
pub fn find_collection(collections: &Vec<Collection>, name: &String) -> (r: usize)
    requires
        exists|k: int| 0 <= k < collections.len() && #[trigger] collections@[k].name@ == name@,
    ensures
        first_named(cmodels(collections@), name@, collections.len() as nat) == Some(r as int),
        r < collections.len(),
        collections@[r as int].name@ == name@,
{
    proof {
        let k = choose|k: int| 0 <= k < collections.len() && #[trigger] collections@[k].name@ == name@;
        assert(cmodels(collections@)[k].name == name@);
        lemma_named_is_found(cmodels(collections@), name@, k, collections.len() as nat);
        lemma_first_named_bound(cmodels(collections@), name@, collections.len() as nat);
    }
    match position_of_collection(collections, name) {
        Some(k) => k,
        None => 0,
    }
}

/// The position of the first animation that shows sprites of the named
/// collection, which must exist.
pub fn animation_of_collection(animations: &Vec<Animation>, name: &String) -> (r: usize)
    requires
        exists|k: int| 0 <= k < animations.len() && uses_collection(#[trigger] animations@[k], name@),
    ensures
        r < animations.len(),
        uses_collection(animations@[r as int], name@),
        forall|k2: int| 0 <= k2 < r ==> !uses_collection(#[trigger] animations@[k2], name@),
{
    match position_of_animation_for(animations, name) {
        Some(k) => k,
        None => 0,
    }
}

} // verus!
