use vstd::prelude::*;

use crate::map::{Gid, MapTilesetGid};
use vstd::arithmetic::div_mod::{lemma_fundamental_div_mod, lemma_fundamental_div_mod_converse};

verus! {

/// The mathematical floor of `a / b`.
pub open spec fn floor_quotient(a: int, b: int) -> int
    recommends
        b != 0,
{
    if b > 0 {
        a / b
    } else {
        (-a) / (-b)
    }
}

/// Any `q` whose multiple `q * b` lies within one step of `b` below `a`
/// (measured in the direction of `b`) is the floor of `a / b`.
proof fn lemma_floor_quotient_unique(a: int, b: int, q: int)
    requires
        b != 0,
        b > 0 ==> q * b <= a < q * b + b,
        b < 0 ==> q * b >= a > q * b + b,
    ensures
        q == floor_quotient(a, b),
{
    if b > 0 {
        lemma_fundamental_div_mod_converse(a, b, q, a - q * b);
    } else {
        assert(q * (-b) == -(q * b)) by (nonlinear_arith);
        lemma_fundamental_div_mod_converse(-a, -b, q, (-a) - q * (-b));
    }
}

/// The floor of `a / b` is the quotient `q` whose multiple `q * b` is the
/// nearest one to `a` that does not pass `a` in the direction of `b`:
/// `q * b <= a < q * b + b` for a positive `b`, and the mirror image for a
/// negative one.
pub proof fn lemma_floor_quotient_bounds(a: int, b: int)
    requires
        b != 0,
    ensures
        b > 0 ==> floor_quotient(a, b) * b <= a < floor_quotient(a, b) * b + b,
        b < 0 ==> floor_quotient(a, b) * b >= a > floor_quotient(a, b) * b + b,
{
    let q = floor_quotient(a, b);
    if b > 0 {
        lemma_fundamental_div_mod(a, b);
        assert(b * q == q * b) by (nonlinear_arith);
    } else {
        lemma_fundamental_div_mod(-a, -b);
        assert((-b) * q == -(q * b)) by (nonlinear_arith);
    }
}

/// Quotient and remainder of a non-negative `p` by a positive `q`.
proof fn lemma_nonneg_div_mod(p: int, q: int)
    requires
        p >= 0,
        q > 0,
    ensures
        (p / q) * q + p % q == p,
        0 <= p % q < q,
        0 <= p / q <= p,
{
    lemma_fundamental_div_mod(p, q);
    let t = p / q;
    let r = p % q;
    assert(q * t == t * q) by (nonlinear_arith);
    assert(0 <= t <= p) by (nonlinear_arith)
        requires
            t * q + r == p,
            0 <= r < q,
            p >= 0,
            q > 0,
    ;
}

/// Division and remainder that truncate towards zero, as Rust's `/` and `%`
/// on signed integers do.
proof fn lemma_truncating_div_rem(x: int, y: int, t: int, m: int)
    requires
        y != 0,
        t == (if x == 0 {
            0
        } else if x > 0 && y > 0 {
            x / y
        } else if x < 0 && y < 0 {
            (x * -1) / (y * -1)
        } else if x < 0 {
            ((x * -1) / y) * -1
        } else {
            (x / (y * -1)) * -1
        }),
        m == (if x == 0 {
            0
        } else if x > 0 && y > 0 {
            x % y
        } else if x < 0 && y < 0 {
            ((x * -1) % (y * -1)) * -1
        } else if x < 0 {
            ((x * -1) % y) * -1
        } else {
            x % (y * -1)
        }),
    ensures
        t * y + m == x,
        x >= 0 ==> 0 <= m,
        x <= 0 ==> m <= 0,
        -y < m < y || y < m < -y,
        x >= 0 ==> -x <= t <= x,
        x <= 0 ==> x <= t <= -x,
{
    assert(x * -1 == -x);
    assert(y * -1 == -y);
    if x == 0 {
    } else if x > 0 && y > 0 {
        lemma_nonneg_div_mod(x, y);
    } else if x < 0 && y < 0 {
        lemma_nonneg_div_mod(-x, -y);
        let q = (-x) / (-y);
        assert(q * y == -(q * (-y))) by (nonlinear_arith);
    } else if x < 0 {
        lemma_nonneg_div_mod(-x, y);
        let q = (-x) / y;
        assert((q * -1) * y == -(q * y)) by (nonlinear_arith);
    } else {
        lemma_nonneg_div_mod(x, -y);
        let q = x / (-y);
        assert((q * -1) * y == q * (-y)) by (nonlinear_arith);
    }
}

/// Integer division of `a` by `b`, rounded towards negative infinity.
pub fn floor_div(a: i32, b: i32) -> (r: i32)
    requires
        b != 0,
        !(a == i32::MIN && b == -1),
    ensures
        r as int == floor_quotient(a as int, b as int),
        b > 0 ==> r * b <= a < r * b + b,
        b < 0 ==> r * b >= a > r * b + b,
{
    proof {
        lemma_floor_quotient_bounds(a as int, b as int);
        let (x, y) = (a as int, b as int);
        assert(x * -1 == -x);
        assert(y * -1 == -y);
        if x < 0 && y < 0 {
            lemma_nonneg_div_mod(-x, -y);
            if x == i32::MIN {
                assert((-x) / (-y) <= -x);
                assert(-y >= 2);
                assert((-x) / (-y) < -x) by (nonlinear_arith)
                    requires
                        -x > 0,
                        -y >= 2,
                        ((-x) / (-y)) * (-y) <= -x,
                        (-x) / (-y) >= 0,
                ;
            }
        } else if x < 0 {
            lemma_nonneg_div_mod(-x, y);
        } else if x > 0 && y < 0 {
            lemma_nonneg_div_mod(x, -y);
        } else if x > 0 {
            lemma_nonneg_div_mod(x, y);
        }
    }
    let d = a.checked_div(b).unwrap();
    let r = a.checked_rem(b).unwrap();
    proof {
        lemma_truncating_div_rem(a as int, b as int, d as int, r as int);
    }

    if r == 0 {
        proof {
            lemma_floor_quotient_unique(a as int, b as int, d as int);
        }
        d
    } else {
        proof {
            if a < 0 && b > 0 {
                assert(d >= d * b) by (nonlinear_arith)
                    requires
                        d <= 0,
                        b >= 1,
                ;
            }
        }
        let res = d - ((a < 0) ^ (b < 0)) as i32;
        proof {
            if (a < 0) != (b < 0) {
                assert(d * b - b == (d - 1) * b) by (nonlinear_arith);
            }
            lemma_floor_quotient_unique(a as int, b as int, res as int);
        }
        res
    }
}

/// The index of the last of `tilesets` whose first GID is at most `gid`:
/// the tileset that holds the tile `gid`.
pub open spec fn tileset_index_for_gid(tilesets: Seq<MapTilesetGid>, gid: Gid) -> Option<int>
    decreases tilesets.len(),
{
    if tilesets.len() == 0 {
        None
    } else if tilesets.last().first_gid.0 <= gid.0 {
        Some(tilesets.len() - 1)
    } else {
        tileset_index_for_gid(tilesets.drop_last(), gid)
    }
}

/// Returns both the tileset and its index
pub fn get_tileset_for_gid(tilesets: &[MapTilesetGid], gid: Gid) -> (r: Option<
    (usize, &MapTilesetGid),
>)
    ensures
        match tileset_index_for_gid(tilesets@, gid) {
            Some(i) => r matches Some((j, t)) && j == i && *t == tilesets@[i],
            None => r is None,
        },
        r matches Some((j, t)) ==> j < tilesets@.len() && *t == tilesets@[j as int]
            && t.first_gid.0 <= gid.0 && forall|k: int|
            j < k < tilesets@.len() ==> tilesets@[k].first_gid.0 > gid.0,
        r is None ==> forall|k: int| 0 <= k < tilesets@.len() ==> tilesets@[k].first_gid.0 > gid.0,
{
    let mut i = tilesets.len();
    assert(tilesets@.take(i as int) =~= tilesets@);
    while i > 0
        invariant
            i <= tilesets@.len(),
            tileset_index_for_gid(tilesets@, gid) == tileset_index_for_gid(
                tilesets@.take(i as int),
                gid,
            ),
        decreases i,
    {
        assert(tilesets@.take(i as int).drop_last() =~= tilesets@.take(i - 1));
        if tilesets[i - 1].first_gid.0 <= gid.0 {
            proof {
                crate::objects::lemma_tileset_index_for_gid(tilesets@, gid);
            }
            return Some((i - 1, &tilesets[i - 1]));
        }
        i = i - 1;
    }
    proof {
        crate::objects::lemma_tileset_index_for_gid(tilesets@, gid);
    }
    None
}

} // verus!
