use vstd::prelude::*;

verus! {

/// The mathematical value of a `Sprite`: the same fields, with strings as
/// character sequences.
pub struct SpriteModel {
    pub id: u32,
    pub name: Seq<char>,
    pub collection_name: Seq<char>,
    pub path: Seq<char>,
    pub flipped: bool,
    pub x: i32,
    pub y: i32,
    pub xr: i32,
    pub yr: i32,
    pub width: i32,
    pub height: i32,
}

/// One frame of art and its placement in its collection's atlas.
///
/// `x`, `y` place the sprite in the atlas (bottom-left origin); `xr`, `yr`,
/// `width`, `height` give the trimmed region inside the frame image, also
/// measured from the bottom-left corner. `flipped` marks a sprite stored
/// transposed in the atlas.
#[derive(Clone, Debug)]
pub struct Sprite {
    pub id: u32,
    pub name: String,
    pub collection_name: String,
    pub path: String,
    pub flipped: bool,
    pub x: i32,
    pub y: i32,
    pub xr: i32,
    pub yr: i32,
    pub width: i32,
    pub height: i32,
}

impl View for Sprite {
    type V = SpriteModel;

    open spec fn view(&self) -> SpriteModel {
        SpriteModel {
            id: self.id,
            name: self.name@,
            collection_name: self.collection_name@,
            path: self.path@,
            flipped: self.flipped,
            x: self.x,
            y: self.y,
            xr: self.xr,
            yr: self.yr,
            width: self.width,
            height: self.height,
        }
    }
}

impl PartialEq for Sprite {
    fn eq(&self, o: &Sprite) -> (r: bool)
        ensures
            r == (self@ == o@),
    {
        self.id == o.id && self.name == o.name && self.collection_name == o.collection_name
            && self.path == o.path && self.flipped == o.flipped && self.x == o.x && self.y == o.y
            && self.xr == o.xr && self.yr == o.yr && self.width == o.width && self.height
            == o.height
    }
}

impl vstd::std_specs::cmp::PartialEqSpecImpl for Sprite {
    open spec fn obeys_eq_spec() -> bool {
        true
    }

    open spec fn eq_spec(&self, o: &Sprite) -> bool {
        self@ == o@
    }
}

impl Sprite {
    /// A field-by-field copy.
    pub fn copy(&self) -> (r: Sprite)
        ensures
            r == *self,
    {
        Sprite {
            id: self.id,
            name: self.name.clone(),
            collection_name: self.collection_name.clone(),
            path: self.path.clone(),
            flipped: self.flipped,
            x: self.x,
            y: self.y,
            xr: self.xr,
            yr: self.yr,
            width: self.width,
            height: self.height,
        }
    }

    /// The all-zero sprite with empty strings; a consistency check ends by sending it.
    pub fn sentinel() -> (r: Sprite)
        ensures
            r@ == sentinel_model(),
    {
        Sprite {
            id: 0,
            name: String::new(),
            collection_name: String::new(),
            path: String::new(),
            flipped: false,
            x: 0,
            y: 0,
            xr: 0,
            yr: 0,
            width: 0,
            height: 0,
        }
    }
}

pub open spec fn sentinel_model() -> SpriteModel {
    SpriteModel {
        id: 0,
        name: Seq::empty(),
        collection_name: Seq::empty(),
        path: Seq::empty(),
        flipped: false,
        x: 0,
        y: 0,
        xr: 0,
        yr: 0,
        width: 0,
        height: 0,
    }
}

pub open spec fn strs(v: Seq<String>) -> Seq<Seq<char>> {
    v.map_values(|s: String| s@)
}

pub open spec fn models(v: Seq<Sprite>) -> Seq<SpriteModel> {
    v.map_values(|s: Sprite| s@)
}

/// The columnar value of a sprite manifest.
pub struct InfoModel {
    pub id: Seq<u32>,
    pub name: Seq<Seq<char>>,
    pub collection_name: Seq<Seq<char>>,
    pub path: Seq<Seq<char>>,
    pub flipped: Seq<bool>,
    pub x: Seq<i32>,
    pub y: Seq<i32>,
    pub xr: Seq<i32>,
    pub yr: Seq<i32>,
    pub width: Seq<i32>,
    pub height: Seq<i32>,
}

impl InfoModel {
    /// Index `i` names a sprite: every column reaches it, the collection name
    /// column either per sprite or a single collection-wide entry.
    pub open spec fn has_index(self, i: int) -> bool {
        0 <= i && i < self.id.len() && i < self.name.len() && i < self.path.len() && i
            < self.flipped.len() && i < self.x.len() && i < self.y.len() && i < self.xr.len() && i
            < self.yr.len() && i < self.width.len() && i < self.height.len() && (i
            < self.collection_name.len() || self.collection_name.len() == 1)
    }

    pub open spec fn collection_name_at(self, i: int) -> Seq<char> {
        if i < self.collection_name.len() {
            self.collection_name[i]
        } else {
            self.collection_name[0]
        }
    }

    pub open spec fn sprite_at(self, i: int) -> SpriteModel {
        SpriteModel {
            id: self.id[i],
            name: self.name[i],
            collection_name: self.collection_name_at(i),
            path: self.path[i],
            flipped: self.flipped[i],
            x: self.x[i],
            y: self.y[i],
            xr: self.xr[i],
            yr: self.yr[i],
            width: self.width[i],
            height: self.height[i],
        }
    }

    /// Every column holds exactly `id.len()` entries.
    pub open spec fn aligned(self) -> bool {
        let n = self.id.len();
        self.name.len() == n && self.collection_name.len() == n && self.path.len() == n
            && self.flipped.len() == n && self.x.len() == n && self.y.len() == n && self.xr.len()
            == n && self.yr.len() == n && self.width.len() == n && self.height.len() == n
    }

    /// The sprites that the manifest lists, in order.
    pub open spec fn sprites(self) -> Seq<SpriteModel> {
        Seq::new(self.id.len(), |i: int| self.sprite_at(i))
    }

    /// The sprites at the first `n` indices, leaving out indices that some
    /// column does not reach.
    pub open spec fn complete_sprites(self, n: nat) -> Seq<SpriteModel>
        decreases n,
    {
        if n == 0 {
            Seq::empty()
        } else if self.has_index(n - 1) {
            self.complete_sprites((n - 1) as nat).push(self.sprite_at(n - 1))
        } else {
            self.complete_sprites((n - 1) as nat)
        }
    }
}

/// The manifest that lists the given sprites, one entry per column and sprite.
pub open spec fn emit(s: Seq<SpriteModel>) -> InfoModel {
    InfoModel {
        id: s.map_values(|m: SpriteModel| m.id),
        name: s.map_values(|m: SpriteModel| m.name),
        collection_name: s.map_values(|m: SpriteModel| m.collection_name),
        path: s.map_values(|m: SpriteModel| m.path),
        flipped: s.map_values(|m: SpriteModel| m.flipped),
        x: s.map_values(|m: SpriteModel| m.x),
        y: s.map_values(|m: SpriteModel| m.y),
        xr: s.map_values(|m: SpriteModel| m.xr),
        yr: s.map_values(|m: SpriteModel| m.yr),
        width: s.map_values(|m: SpriteModel| m.width),
        height: s.map_values(|m: SpriteModel| m.height),
    }
}

/// A sprite manifest (`SpriteInfo.json`): parallel columns, aligned by index.
#[derive(Clone, Debug)]
pub struct SpriteInfo {
    pub id: Vec<u32>,
    pub name: Vec<String>,
    pub collection_name: Vec<String>,
    pub path: Vec<String>,
    pub flipped: Vec<bool>,
    pub x: Vec<i32>,
    pub y: Vec<i32>,
    pub xr: Vec<i32>,
    pub yr: Vec<i32>,
    pub width: Vec<i32>,
    pub height: Vec<i32>,
}

impl View for SpriteInfo {
    type V = InfoModel;

    open spec fn view(&self) -> InfoModel {
        InfoModel {
            id: self.id@,
            name: strs(self.name@),
            collection_name: strs(self.collection_name@),
            path: strs(self.path@),
            flipped: self.flipped@,
            x: self.x@,
            y: self.y@,
            xr: self.xr@,
            yr: self.yr@,
            width: self.width@,
            height: self.height@,
        }
    }
}

impl SpriteInfo {
    /// The sprite at index `i`, or `None` where some column does not reach it.
    pub fn at(&self, i: usize) -> (r: Option<Sprite>)
        ensures
            r.is_some() == self@.has_index(i as int),
            r.is_some() ==> r.unwrap()@ == self@.sprite_at(i as int),
    {
        if !(i < self.id.len() && i < self.name.len() && i < self.path.len() && i
            < self.flipped.len() && i < self.x.len() && i < self.y.len() && i < self.xr.len() && i
            < self.yr.len() && i < self.width.len() && i < self.height.len() && (i
            < self.collection_name.len() || self.collection_name.len() == 1)) {
            return None;
        }
        let collection_name = if i < self.collection_name.len() {
            self.collection_name[i].clone()
        } else {
            self.collection_name[0].clone()
        };
        Some(
            Sprite {
                id: self.id[i],
                name: self.name[i].clone(),
                collection_name,
                path: self.path[i].clone(),
                flipped: self.flipped[i],
                x: self.x[i],
                y: self.y[i],
                xr: self.xr[i],
                yr: self.yr[i],
                width: self.width[i],
                height: self.height[i],
            },
        )
    }

    /// Every sprite that the manifest lists, in index order; indices that some
    /// column does not reach are left out.
    pub fn sprites(&self) -> (r: Vec<Sprite>)
        ensures
            models(r@) == self@.complete_sprites(self.id@.len()),
            self@.aligned() ==> models(r@) == self@.sprites(),
    {
        let mut r: Vec<Sprite> = Vec::new();
        let n = self.id.len();
        let mut i: usize = 0;
        proof {
            assert(models(r@) =~= Seq::<SpriteModel>::empty());
        }
        while i < n
            invariant
                n == self.id.len(),
                i <= n,
                models(r@) == self@.complete_sprites(i as nat),
                self@.aligned() ==> models(r@) =~= self@.sprites().subrange(0, i as int),
            decreases n - i,
        {
            let ghost prev = models(r@);
            if let Some(s) = self.at(i) {
                r.push(s);
                proof {
                    assert(models(r@) =~= prev.push(s@));
                }
            }
            i += 1;
        }
        proof {
            assert(self@.sprites().subrange(0, n as int) =~= self@.sprites());
        }
        r
    }

    /// The manifest that lists `sprites`, one entry per column and sprite.
    pub fn from_sprites(sprites: &Vec<Sprite>) -> (r: SpriteInfo)
        ensures
            r@ == emit(models(sprites@)),
    {
        let mut r = SpriteInfo {
            id: Vec::new(),
            name: Vec::new(),
            collection_name: Vec::new(),
            path: Vec::new(),
            flipped: Vec::new(),
            x: Vec::new(),
            y: Vec::new(),
            xr: Vec::new(),
            yr: Vec::new(),
            width: Vec::new(),
            height: Vec::new(),
        };
        let mut i: usize = 0;
        proof {
            lemma_emit_empty();
            assert(models(sprites@.subrange(0, 0)) =~= Seq::<SpriteModel>::empty());
            assert(strs(r.name@) =~= Seq::empty());
            assert(strs(r.collection_name@) =~= Seq::empty());
            assert(strs(r.path@) =~= Seq::empty());
        }
        while i < sprites.len()
            invariant
                i <= sprites.len(),
                r@ == emit(models(sprites@.subrange(0, i as int))),
            decreases sprites.len() - i,
        {
            let s = &sprites[i];
            proof {
                lemma_strs_push(r.name@, s.name);
                lemma_strs_push(r.collection_name@, s.collection_name);
                lemma_strs_push(r.path@, s.path);
            }
            r.id.push(s.id);
            r.name.push(s.name.clone());
            r.collection_name.push(s.collection_name.clone());
            r.path.push(s.path.clone());
            r.flipped.push(s.flipped);
            r.x.push(s.x);
            r.y.push(s.y);
            r.xr.push(s.xr);
            r.yr.push(s.yr);
            r.width.push(s.width);
            r.height.push(s.height);
            proof {
                let q = models(sprites@.subrange(0, i as int));
                assert(models(sprites@.subrange(0, i as int + 1)) =~= q.push(sprites@[i as int]@));
                lemma_emit_push(q, sprites@[i as int]@);
            }
            i += 1;
        }
        proof {
            assert(sprites@.subrange(0, sprites@.len() as int) =~= sprites@);
        }
        r
    }
}

proof fn lemma_strs_push(v: Seq<String>, s: String)
    ensures
        strs(v.push(s)) == strs(v).push(s@),
{
    assert(strs(v.push(s)) =~= strs(v).push(s@));
}

proof fn lemma_emit_empty()
    ensures
        emit(Seq::empty()) == (InfoModel {
            id: Seq::empty(),
            name: Seq::empty(),
            collection_name: Seq::empty(),
            path: Seq::empty(),
            flipped: Seq::empty(),
            x: Seq::empty(),
            y: Seq::empty(),
            xr: Seq::empty(),
            yr: Seq::empty(),
            width: Seq::empty(),
            height: Seq::empty(),
        }),
{
    let e = emit(Seq::empty());
    assert(e.id =~= Seq::empty());
    assert(e.name =~= Seq::empty());
    assert(e.collection_name =~= Seq::empty());
    assert(e.path =~= Seq::empty());
    assert(e.flipped =~= Seq::empty());
    assert(e.x =~= Seq::empty());
    assert(e.y =~= Seq::empty());
    assert(e.xr =~= Seq::empty());
    assert(e.yr =~= Seq::empty());
    assert(e.width =~= Seq::empty());
    assert(e.height =~= Seq::empty());
}

proof fn lemma_emit_push(s: Seq<SpriteModel>, m: SpriteModel)
    ensures
        emit(s.push(m)) == (InfoModel {
            id: emit(s).id.push(m.id),
            name: emit(s).name.push(m.name),
            collection_name: emit(s).collection_name.push(m.collection_name),
            path: emit(s).path.push(m.path),
            flipped: emit(s).flipped.push(m.flipped),
            x: emit(s).x.push(m.x),
            y: emit(s).y.push(m.y),
            xr: emit(s).xr.push(m.xr),
            yr: emit(s).yr.push(m.yr),
            width: emit(s).width.push(m.width),
            height: emit(s).height.push(m.height),
        }),
{
    let e = emit(s.push(m));
    let f = emit(s);
    assert(e.id =~= f.id.push(m.id));
    assert(e.name =~= f.name.push(m.name));
    assert(e.collection_name =~= f.collection_name.push(m.collection_name));
    assert(e.path =~= f.path.push(m.path));
    assert(e.flipped =~= f.flipped.push(m.flipped));
    assert(e.x =~= f.x.push(m.x));
    assert(e.y =~= f.y.push(m.y));
    assert(e.xr =~= f.xr.push(m.xr));
    assert(e.yr =~= f.yr.push(m.yr));
    assert(e.width =~= f.width.push(m.width));
    assert(e.height =~= f.height.push(m.height));
}

/// Reading every sprite of a manifest whose columns are aligned and emitting
/// a manifest from them gives back the same manifest.
pub proof fn lemma_manifest_round_trip(info: InfoModel)
    requires
        info.aligned(),
    ensures
        emit(info.sprites()) == info,
{
    let e = emit(info.sprites());
    assert(e.id =~= info.id);
    assert(e.name =~= info.name);
    assert(e.collection_name =~= info.collection_name);
    assert(e.path =~= info.path);
    assert(e.flipped =~= info.flipped);
    assert(e.x =~= info.x);
    assert(e.y =~= info.y);
    assert(e.xr =~= info.xr);
    assert(e.yr =~= info.yr);
    assert(e.width =~= info.width);
    assert(e.height =~= info.height);
}

/// Emitting a manifest from a list of sprites and reading it back gives the
/// same list.
pub proof fn lemma_sprites_round_trip(s: Seq<SpriteModel>)
    ensures
        emit(s).aligned(),
        emit(s).sprites() == s,
{
    assert(emit(s).sprites() =~= s);
}

} // verus!
