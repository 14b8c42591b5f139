use vstd::prelude::*;
use crate::sprite::{Sprite, SpriteModel, strs};

verus! {

/// The pieces of `s` between separators (`a` or `b`), empty pieces kept, as
/// `str::split` gives them.
pub open spec fn tokens(s: Seq<char>, a: char, b: char) -> Seq<Seq<char>>
    decreases s.len(),
{
    if s.len() == 0 {
        seq![Seq::empty()]
    } else {
        let rest = tokens(s.drop_last(), a, b);
        let c = s.last();
        if c == a || c == b {
            rest.push(Seq::empty())
        } else {
            rest.update(rest.len() - 1, rest.last().push(c))
        }
    }
}

proof fn lemma_tokens_len(s: Seq<char>, a: char, b: char)
    ensures
        tokens(s, a, b).len() >= 1,
    decreases s.len(),
{
    if s.len() > 0 {
        lemma_tokens_len(s.drop_last(), a, b);
    }
}

/// Splits `s` at every `a` or `b`.
pub fn split_by(s: &str, a: char, b: char) -> (r: Vec<String>)
    ensures
        strs(r@) == tokens(s@, a, b),
{
    let n = s.unicode_len();
    let mut r: Vec<String> = Vec::new();
    let mut start: usize = 0;
    let mut k: usize = 0;
    proof {
        assert(s@.subrange(0, 0) =~= Seq::<char>::empty());
        assert(strs(r@).push(s@.subrange(0, 0)) =~= tokens(s@.subrange(0, 0), a, b));
    }
    while k < n
        invariant
            n == s@.len(),
            start <= k <= n,
            strs(r@).push(s@.subrange(start as int, k as int)) == tokens(s@.subrange(0, k as int), a, b),
        decreases n - k,
    {
        let c = s.get_char(k);
        proof {
            let p = s@.subrange(0, k as int + 1);
            assert(p.drop_last() =~= s@.subrange(0, k as int));
            assert(p.last() == c);
            lemma_tokens_len(s@.subrange(0, k as int), a, b);
        }
        if c == a || c == b {
            let piece = String::from_str(s.substring_char(start, k));
            r.push(piece);
            proof {
                assert(strs(r@) =~= strs(r@.drop_last()).push(piece@));
                assert(s@.subrange(k as int + 1, k as int + 1) =~= Seq::<char>::empty());
            }
            start = k + 1;
        } else {
            proof {
                assert(s@.subrange(start as int, k as int + 1) =~= s@.subrange(start as int, k as int).push(c));
            }
        }
        k += 1;
    }
    let last = String::from_str(s.substring_char(start, n));
    r.push(last);
    proof {
        assert(strs(r@) =~= strs(r@.drop_last()).push(last@));
        assert(s@.subrange(0, n as int) =~= s@);
    }
    r
}

/// `s` with every `.png` taken out, scanning left to right as `str::replace`
/// does.
pub open spec fn strip_png(s: Seq<char>) -> Seq<char>
    decreases s.len(),
{
    if s.len() >= 4 && s.subrange(0, 4) == seq!['.', 'p', 'n', 'g'] {
        strip_png(s.subrange(4, s.len() as int))
    } else if s.len() == 0 {
        s
    } else {
        seq![s[0]] + strip_png(s.subrange(1, s.len() as int))
    }
}

pub open spec fn is_digit(c: char) -> bool {
    '0' <= c && c <= '9'
}

/// The decimal value of a string of digits.
pub open spec fn digits_value(d: Seq<char>) -> int
    decreases d.len(),
{
    if d.len() == 0 {
        0
    } else {
        digits_value(d.drop_last()) * 10 + (d.last() as int - '0' as int)
    }
}

/// The digits that `u32::from_str` reads: everything after an optional
/// leading `+`.
pub open spec fn unsigned_body(d: Seq<char>) -> Seq<char> {
    if d.len() > 0 && d[0] == '+' {
        d.subrange(1, d.len() as int)
    } else {
        d
    }
}

/// `d` is a decimal number that fits in a `u32`.
pub open spec fn parses_u32(d: Seq<char>) -> bool {
    let b = unsigned_body(d);
    b.len() > 0 && (forall|k: int| 0 <= k < b.len() ==> is_digit(#[trigger] b[k])) && digits_value(b)
        <= u32::MAX
}

/// The sprite id that a frame file name carries: its last `-` piece with
/// `.png` taken out; `None` for a name of fewer than three pieces.
pub open spec fn name_id_text(name: Seq<char>) -> Option<Seq<char>> {
    let t = tokens(name, '-', '-');
    if t.len() < 3 {
        None
    } else {
        Some(strip_png(t.last()))
    }
}

proof fn lemma_digits_value_nonneg(d: Seq<char>)
    requires
        forall|k: int| 0 <= k < d.len() ==> is_digit(#[trigger] d[k]),
    ensures
        digits_value(d) >= 0,
    decreases d.len(),
{
    if d.len() > 0 {
        lemma_digits_value_nonneg(d.drop_last());
    }
}

proof fn lemma_digits_value_grows(d: Seq<char>, k: int)
    requires
        0 <= k <= d.len(),
        forall|m: int| 0 <= m < d.len() ==> is_digit(#[trigger] d[m]),
    ensures
        digits_value(d.subrange(0, k)) <= digits_value(d),
    decreases d.len() - k,
{
    if k < d.len() {
        lemma_digits_value_grows(d, k + 1);
        let p = d.subrange(0, k + 1);
        assert(p.drop_last() =~= d.subrange(0, k));
        lemma_digits_value_nonneg(d.subrange(0, k));
    } else {
        assert(d.subrange(0, k) =~= d);
    }
}

/// Reads `d` as a `u32` the way `u32::from_str` does for text without a
/// minus sign: an optional `+`, then one or more decimal digits.
pub fn parse_u32(d: &Vec<char>) -> (r: Option<u32>)
    ensures
        r.is_some() == parses_u32(d@),
        r.is_some() ==> r.unwrap() as int == digits_value(unsigned_body(d@)),
{
    let n = d.len();
    let start: usize = if n > 0 && d[0] == '+' {
        1
    } else {
        0
    };
    let ghost b = unsigned_body(d@);
    proof {
        assert(b =~= d@.subrange(start as int, n as int));
    }
    if start == n {
        return None;
    }
    let mut v: u64 = 0;
    let mut k: usize = start;
    while k < n
        invariant
            start <= k <= n,
            n == d@.len(),
            b == d@.subrange(start as int, n as int),
            b == unsigned_body(d@),
            forall|m: int| start <= m < k ==> is_digit(#[trigger] d@[m]),
            v as int == digits_value(d@.subrange(start as int, k as int)),
            v <= u32::MAX,
        decreases n - k,
    {
        let c = d[k];
        if !('0' <= c && c <= '9') {
            proof {
                assert(b[k - start] == c);
                assert(!is_digit(b[k - start]));
            }
            return None;
        }
        let ghost p = d@.subrange(start as int, k as int + 1);
        proof {
            assert(p.drop_last() =~= d@.subrange(start as int, k as int));
        }
        let next: u64 = v * 10 + (c as u64 - '0' as u64);
        if next > 4294967295u64 {
            proof {
                if parses_u32(d@) {
                    assert(unsigned_body(d@) == b);
                    assert(forall|m: int| 0 <= m < b.len() ==> is_digit(#[trigger] b[m]));
                    lemma_digits_value_grows(b, k - start + 1);
                    assert(b.subrange(0, k - start + 1) =~= p);
                }
            }
            return None;
        }
        v = next;
        k += 1;
    }
    proof {
        assert(d@.subrange(start as int, k as int) =~= b);
    }
    Some(v as u32)
}

/// `s` with every `.png` taken out.
pub fn strip_png_chars(s: &str) -> (r: Vec<char>)
    ensures
        r@ == strip_png(s@),
{
    let n = s.unicode_len();
    let mut r: Vec<char> = Vec::new();
    let mut k: usize = 0;
    proof {
        assert(s@.subrange(0, n as int) =~= s@);
    }
    while k < n
        invariant
            k <= n,
            n == s@.len(),
            r@ + strip_png(s@.subrange(k as int, n as int)) == strip_png(s@),
        decreases n - k,
    {
        let ghost t = s@.subrange(k as int, n as int);
        if 4 <= n - k && s.get_char(k) == '.' && s.get_char(k + 1) == 'p' && s.get_char(k + 2) == 'n'
            && s.get_char(k + 3) == 'g' {
            proof {
                assert(t.subrange(0, 4) =~= seq!['.', 'p', 'n', 'g']);
                assert(t.subrange(4, t.len() as int) =~= s@.subrange(k as int + 4, n as int));
            }
            k += 4;
        } else {
            let c = s.get_char(k);
            proof {
                if t.len() >= 4 && t.subrange(0, 4) == seq!['.', 'p', 'n', 'g'] {
                    assert(t.subrange(0, 4)[0] == '.');
                    assert(t.subrange(0, 4)[1] == 'p');
                    assert(t.subrange(0, 4)[2] == 'n');
                    assert(t.subrange(0, 4)[3] == 'g');
                }
                assert(t.subrange(1, t.len() as int) =~= s@.subrange(k as int + 1, n as int));
                assert(r@.push(c) + strip_png(s@.subrange(k as int + 1, n as int)) =~= r@ + (seq![c]
                    + strip_png(s@.subrange(k as int + 1, n as int))));
            }
            r.push(c);
            k += 1;
        }
    }
    proof {
        assert(s@.subrange(n as int, n as int) =~= Seq::<char>::empty());
        assert(r@ + Seq::<char>::empty() =~= r@);
    }
    r
}

/// What a frame file name says of its sprite id.
#[derive(Debug)]
pub enum NameId {
    /// Fewer than three `-` pieces: not a frame name.
    TooFewPieces,
    /// The last piece is not a decimal `u32`.
    NotANumber,
    Id(u32),
}

pub open spec fn name_id(name: Seq<char>) -> NameId {
    match name_id_text(name) {
        None => NameId::TooFewPieces,
        Some(t) => if parses_u32(t) {
            NameId::Id(digits_value(unsigned_body(t)) as u32)
        } else {
            NameId::NotANumber
        },
    }
}

/// Reads the sprite id from a frame file name `<anim>-<clip>-<id>.png`.
pub fn sprite_id_from_name(name: &str) -> (r: NameId)
    ensures
        r == name_id(name@),
{
    let pieces = split_by(name, '-', '-');
    if pieces.len() < 3 {
        return NameId::TooFewPieces;
    }
    let last = pieces[pieces.len() - 1].as_str();
    proof {
        assert(strs(pieces@).last() == pieces@.last()@);
    }
    let digits = strip_png_chars(last);
    match parse_u32(&digits) {
        Some(v) => NameId::Id(v),
        None => NameId::NotANumber,
    }
}

/// A watcher event names a frame whose id cannot be read.
#[derive(Debug)]
pub enum WatchError {
    BadSpriteId,
}

/// The changed sprite that a content change of the file at `rel_path` (a
/// path under the sprites root, `<anim>/<clip>/<file>`) stands for. Paths of
/// fewer than three components and file names of fewer than three `-`
/// pieces give `Ok(None)`; a file name whose id is not a number gives an
/// error.
pub fn changed_sprite(rel_path: &str, collection_name: &str) -> (r: Result<Option<Sprite>, WatchError>)
    ensures
        ({
            let parts = tokens(rel_path@, '/', '\\');
            if parts.len() < 3 {
                r == Ok::<Option<Sprite>, WatchError>(None)
            } else {
                match name_id(parts[2]) {
                    NameId::TooFewPieces => r == Ok::<Option<Sprite>, WatchError>(None),
                    NameId::NotANumber => r.is_err(),
                    NameId::Id(v) => r.is_ok() && r.unwrap().is_some() && r.unwrap().unwrap()@ == (
                    SpriteModel {
                        id: v,
                        name: parts[2],
                        collection_name: collection_name@,
                        path: rel_path@,
                        flipped: false,
                        x: 0,
                        y: 0,
                        xr: 0,
                        yr: 0,
                        width: 0,
                        height: 0,
                    }),
                }
            }
        }),
{
    let parts = split_by(rel_path, '/', '\\');
    if parts.len() < 3 {
        return Ok(None);
    }
    proof {
        assert(strs(parts@)[2] == parts@[2]@);
    }
    let name = parts[2].clone();
    match sprite_id_from_name(name.as_str()) {
        NameId::TooFewPieces => Ok(None),
        NameId::NotANumber => Err(WatchError::BadSpriteId),
        NameId::Id(id) => Ok(
            Some(
                Sprite {
                    id,
                    name,
                    collection_name: String::from_str(collection_name),
                    path: String::from_str(rel_path),
                    flipped: false,
                    x: 0,
                    y: 0,
                    xr: 0,
                    yr: 0,
                    width: 0,
                    height: 0,
                },
            ),
        ),
    }
}

} // verus!
