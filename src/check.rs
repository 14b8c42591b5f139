use vstd::prelude::*;
use crate::raster::SpriteImage;

verus! {

/// Item `i` differs from some earlier item of the same sprite id: the
/// comparisons against the earlier items of its id, in order, meet an
/// inequality.
pub open spec fn mismatch(items: Seq<SpriteImage>, i: int) -> bool {
    exists|j: int|
        0 <= j < i && items[j].sprite.id == items[i].sprite.id && !(#[trigger] items[j].same_art(
            &items[i],
        ))
}

pub open spec fn push_new(s: Seq<usize>, k: usize) -> Seq<usize> {
    if s.contains(k) {
        s
    } else {
        s.push(k)
    }
}

/// `s` with the positions of the first `m` items whose sprite id is `id`
/// added in order, each unless it is there already.
pub open spec fn push_bucket(s: Seq<usize>, items: Seq<SpriteImage>, id: u32, m: nat) -> Seq<usize>
    decreases m,
{
    if m == 0 {
        s
    } else {
        let t = push_bucket(s, items, id, (m - 1) as nat);
        if items[m - 1].sprite.id == id {
            push_new(t, (m - 1) as usize)
        } else {
            t
        }
    }
}

/// The positions published after examining the first `n` items: on each
/// mismatch, every earlier item of that id in order and then the item
/// itself, each at most once.
pub open spec fn published(items: Seq<SpriteImage>, n: nat) -> Seq<usize>
    decreases n,
{
    if n == 0 {
        Seq::empty()
    } else {
        let prev = published(items, (n - 1) as nat);
        let i = n - 1;
        if mismatch(items, i) {
            push_new(push_bucket(prev, items, items[i].sprite.id, i as nat), i as usize)
        } else {
            prev
        }
    }
}

/// The checker reports each position at most once, and only positions of
/// the collection.
pub proof fn lemma_published_once(items: Seq<SpriteImage>, n: nat)
    requires
        n <= items.len(),
    ensures
        published(items, n).no_duplicates(),
        forall|m: int| 0 <= m < published(items, n).len() ==> #[trigger] published(items, n)[m] < n,
    decreases n,
{
    if n > 0 {
        let i = n - 1;
        lemma_published_once(items, (n - 1) as nat);
        let prev = published(items, (n - 1) as nat);
        if mismatch(items, i) {
            lemma_push_bucket(prev, items, items[i].sprite.id, i as nat, n);
            lemma_push_new(push_bucket(prev, items, items[i].sprite.id, i as nat), i as usize, n);
        }
    }
}

/// Where every sprite shows the same art as each earlier sprite of its id,
/// the checker reports nothing.
pub proof fn lemma_agreeing_duplicates_report_nothing(items: Seq<SpriteImage>, n: nat)
    requires
        n <= items.len(),
        forall|i: int, j: int|
            0 <= j < i < n && items[j].sprite.id == items[i].sprite.id ==> #[trigger] items[j].same_art(
                &items[i],
            ),
    ensures
        published(items, n) == Seq::<usize>::empty(),
    decreases n,
{
    if n > 0 {
        lemma_agreeing_duplicates_report_nothing(items, (n - 1) as nat);
        assert(!mismatch(items, n - 1));
    }
}

proof fn lemma_push_bucket(s: Seq<usize>, items: Seq<SpriteImage>, id: u32, m: nat, n: nat)
    requires
        s.no_duplicates(),
        forall|k: int| 0 <= k < s.len() ==> #[trigger] s[k] < n,
        m <= n,
    ensures
        push_bucket(s, items, id, m).no_duplicates(),
        forall|k: int|
            0 <= k < push_bucket(s, items, id, m).len() ==> #[trigger] push_bucket(s, items, id, m)[k]
                < n,
    decreases m,
{
    if m > 0 {
        lemma_push_bucket(s, items, id, (m - 1) as nat, n);
        if items[m - 1].sprite.id == id {
            lemma_push_new(push_bucket(s, items, id, (m - 1) as nat), (m - 1) as usize, n);
        }
    }
}

proof fn lemma_push_new(s: Seq<usize>, k: usize, n: nat)
    requires
        s.no_duplicates(),
        forall|m: int| 0 <= m < s.len() ==> #[trigger] s[m] < n,
        k < n,
    ensures
        push_new(s, k).no_duplicates(),
        forall|m: int| 0 <= m < push_new(s, k).len() ==> #[trigger] push_new(s, k)[m] < n,
{
    if !s.contains(k) {
        let t = s.push(k);
        assert forall|a: int, b: int| 0 <= a < t.len() && 0 <= b < t.len() && a != b implies t[a]
            != t[b] by {
            if a == s.len() {
                assert(t[b] == s[b]);
            } else if b == s.len() {
                assert(t[a] == s[a]);
            }
        }
    }
}

fn contains_index(v: &Vec<usize>, k: usize) -> (r: bool)
    ensures
        r == v@.contains(k),
{
    let mut m: usize = 0;
    while m < v.len()
        invariant
            m <= v.len(),
            forall|m2: int| 0 <= m2 < m ==> v@[m2] != k,
        decreases v.len() - m,
    {
        if v[m] == k {
            return true;
        }
        m += 1;
    }
    false
}

/// Whether item `i` differs from some earlier item of its id, comparing in
/// order and stopping at the first difference.
fn differs_from_earlier(items: &Vec<SpriteImage>, i: usize) -> (r: bool)
    requires
        i < items.len(),
        forall|k: int| 0 <= k < items.len() ==> (#[trigger] items@[k]).image.wf(),
    ensures
        r == mismatch(items@, i as int),
{
    let id = items[i].sprite.id;
    let mut j: usize = 0;
    while j < i
        invariant
            i < items.len(),
            id == items@[i as int].sprite.id,
            forall|k: int| 0 <= k < items.len() ==> (#[trigger] items@[k]).image.wf(),
            j <= i,
            forall|j2: int|
                0 <= j2 < j && items@[j2].sprite.id == id ==> #[trigger] items@[j2].same_art(
                    &items@[i as int],
                ),
        decreases i - j,
    {
        if items[j].sprite.id == id && !items[j].equals(&items[i]) {
            proof {
                assert(!items@[j as int].same_art(&items@[i as int]));
            }
            return true;
        }
        j += 1;
    }
    false
}

/// Examines a collection's sprite images in order and returns the positions
/// of the sprites to report as changed. Each sprite is compared with every
/// earlier sprite of its id; on a difference, all of those and the sprite
/// itself are reported, each at most once.
pub fn check_collection(items: &Vec<SpriteImage>) -> (r: Vec<usize>)
    requires
        forall|k: int| 0 <= k < items.len() ==> (#[trigger] items@[k]).image.wf(),
    ensures
        r@ == published(items@, items.len() as nat),
{
    let mut r: Vec<usize> = Vec::new();
    let mut i: usize = 0;
    while i < items.len()
        invariant
            i <= items.len(),
            forall|k: int| 0 <= k < items.len() ==> (#[trigger] items@[k]).image.wf(),
            r@ == published(items@, i as nat),
        decreases items.len() - i,
    {
        if differs_from_earlier(items, i) {
            let id = items[i].sprite.id;
            let ghost prev = r@;
            let mut j: usize = 0;
            while j < i
                invariant
                    i < items.len(),
                    j <= i,
                    id == items@[i as int].sprite.id,
                    r@ == push_bucket(prev, items@, id, j as nat),
                decreases i - j,
            {
                if items[j].sprite.id == id && !contains_index(&r, j) {
                    r.push(j);
                }
                j += 1;
            }
            if !contains_index(&r, i) {
                r.push(i);
            }
        }
        i += 1;
    }
    r
}

} // verus!
