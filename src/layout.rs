//! Randomized placement of the glyphs of a code on the canvas: each glyph
//! starts right of the one before, in an interval that leaves room for the
//! glyphs still to come.
use vstd::prelude::*;
use crate::config::CaptchaConfig;

verus! {

/// Where one character of a code is drawn, and how far it is turned.
#[derive(Debug, Clone, Copy, PartialEq, Eq, Structural)]
pub struct GlyphPlacement {
    pub character: char,
    pub x: usize,
    pub y: usize,
    pub rotation: i32,
}

pub open spec fn min(a: int, b: int) -> int {
    if a <= b {
        a
    } else {
        b
    }
}

/// The horizontal end of the region that glyphs may start in.
pub open spec fn right_edge(cfg: CaptchaConfig) -> int {
    cfg.width - cfg.padding_x
}

/// The least start of glyph `index`, given where the glyph before it starts
/// (for the first glyph, the left padding).
pub open spec fn x_lower(cfg: CaptchaConfig, last_x: int, index: int) -> int {
    if index == 0 {
        last_x
    } else {
        last_x + cfg.character_spacing
    }
}

/// The exclusive upper end for a glyph whose interval starts at `lower`,
/// with `remaining` glyphs (itself included) still to place.
pub open spec fn x_upper(cfg: CaptchaConfig, lower: int, remaining: int) -> int {
    min(right_edge(cfg), lower + (right_edge(cfg) - lower) / remaining)
}

/// Where the glyph before glyph `i` starts (the left padding for the first).
pub open spec fn last_x_before(cfg: CaptchaConfig, v: Seq<GlyphPlacement>, i: int) -> int {
    if i == 0 {
        cfg.padding_x as int
    } else {
        v[i - 1].x as int
    }
}

/// Glyph `i` of `v` draws character `i` of `chars` inside its intervals.
pub open spec fn placement_ok(
    cfg: CaptchaConfig,
    chars: Seq<char>,
    v: Seq<GlyphPlacement>,
    i: int,
) -> bool {
    let lower = x_lower(cfg, last_x_before(cfg, v, i), i);
    let upper = x_upper(cfg, lower, chars.len() - i);
    &&& v[i].character == chars[i]
    &&& lower <= v[i].x < upper
    &&& cfg.padding_y <= v[i].y < cfg.height - cfg.padding_y
    &&& cfg.rotation_min <= v[i].rotation < cfg.rotation_max
}

/// After the glyphs of `v` (a prefix of the layout of `chars`), the interval
/// for the next glyph is empty.
pub open spec fn stuck_after(cfg: CaptchaConfig, chars: Seq<char>, v: Seq<GlyphPlacement>) -> bool {
    let i = v.len() as int;
    let lower = x_lower(cfg, last_x_before(cfg, v, i), i);
    &&& i < chars.len()
    &&& forall|k: int| 0 <= k < i ==> #[trigger] placement_ok(cfg, chars, v, k)
    &&& lower >= x_upper(cfg, lower, chars.len() - i)
}

/// `v` places every character of `chars`, in order, each inside its intervals.
pub open spec fn layout_fits(cfg: CaptchaConfig, chars: Seq<char>, v: Seq<GlyphPlacement>) -> bool {
    &&& v.len() == chars.len()
    &&& forall|i: int| 0 <= i < v.len() ==> #[trigger] placement_ok(cfg, chars, v, i)
}

/// Relies on rand::thread_rng and rand::Rng::gen_range: a value drawn from
/// `lo..hi`, which lies in that range; the call panics on an empty range,
/// which the precondition excludes.
#[verifier::external_body]
fn random_in(lo: usize, hi: usize) -> (r: usize)
    requires
        lo < hi,
    ensures
        lo <= r < hi,
{
    rand::Rng::gen_range(&mut rand::thread_rng(), lo..hi)
}

/// The interval that glyph `index` of `count` may start in, given where the
/// glyph before it starts (for the first glyph, the left padding); `None`
/// where that interval is empty.
pub fn x_bounds(cfg: &CaptchaConfig, last_x: usize, index: usize, count: usize) -> (r: Option<
    (usize, usize),
>)
    requires
        cfg.wf(),
        index < count,
    ensures
        ({
            let lower = x_lower(*cfg, last_x as int, index as int);
            let upper = x_upper(*cfg, lower, count - index);
            &&& r is Some <==> lower < upper
            &&& r matches Some(b) ==> b.0 == lower && b.1 == upper
        }),
{
    let right = cfg.width - cfg.padding_x;
    let gap: usize = if index == 0 {
        0
    } else {
        cfg.character_spacing
    };
    let remaining = count - index;
    let ghost lower = x_lower(*cfg, last_x as int, index as int);
    if last_x >= right || gap >= right - last_x {
        assert(lower >= right);
        assert((right - lower) / (remaining as int) <= 0) by (nonlinear_arith)
            requires
                right - lower <= 0,
                remaining > 0,
        ;
        return None;
    }
    let lo = last_x + gap;
    assert((right - lo) / (remaining as int) <= right - lo) by (nonlinear_arith)
        requires
            right - lo > 0,
            remaining > 0,
    ;
    let hi = lo + (right - lo) / remaining;
    if lo < hi {
        Some((lo, hi))
    } else {
        None
    }
}

/// Places each character of `code`, drawing each start, height and turn at
/// random inside its interval; `None` where an interval turns out empty.
pub fn plan_layout(cfg: &CaptchaConfig, code: &str) -> (r: Option<Vec<GlyphPlacement>>)
    requires
        cfg.wf(),
    ensures
        r matches Some(v) ==> layout_fits(*cfg, code@, v@),
        r is None ==> cfg.padding_y >= cfg.height - cfg.padding_y || cfg.rotation_min
            >= cfg.rotation_max || exists|v: Seq<GlyphPlacement>| stuck_after(*cfg, code@, v),
        cfg.padding_y >= cfg.height - cfg.padding_y ==> r is None,
        cfg.rotation_min >= cfg.rotation_max ==> r is None,
        code@.len() == 0 && cfg.padding_y < cfg.height - cfg.padding_y && cfg.rotation_min
            < cfg.rotation_max ==> (r matches Some(v) && v@.len() == 0),
{
    let n = code.unicode_len();
    if cfg.padding_y >= cfg.height - cfg.padding_y || cfg.rotation_min >= cfg.rotation_max {
        return None;
    }
    let y_hi = cfg.height - cfg.padding_y;
    let span = (cfg.rotation_max as i64 - cfg.rotation_min as i64) as usize;
    let mut v: Vec<GlyphPlacement> = Vec::new();
    let mut last_x = cfg.padding_x;
    let mut i: usize = 0;
    while i < n
        invariant
            cfg.wf(),
            n == code@.len(),
            i <= n,
            v@.len() == i,
            y_hi == cfg.height - cfg.padding_y,
            cfg.padding_y < y_hi,
            span == cfg.rotation_max - cfg.rotation_min,
            cfg.rotation_min < cfg.rotation_max,
            last_x == last_x_before(*cfg, v@, i as int),
            forall|k: int| 0 <= k < i ==> #[trigger] placement_ok(*cfg, code@, v@, k),
        decreases n - i,
    {
        let bounds = x_bounds(cfg, last_x, i, n);
        let (lo, hi) = match bounds {
            Some(b) => b,
            None => {
                assert(stuck_after(*cfg, code@, v@));
                return None;
            },
        };
        let x = random_in(lo, hi);
        let y = random_in(cfg.padding_y, y_hi);
        let turn = random_in(0, span);
        let rotation = (cfg.rotation_min as i64 + turn as i64) as i32;
        let g = GlyphPlacement { character: code.get_char(i), x, y, rotation };
        let ghost old_v = v@;
        v.push(g);
        assert forall|k: int| 0 <= k < i + 1 implies #[trigger] placement_ok(
            *cfg,
            code@,
            v@,
            k,
        ) by {
            if k < i {
                assert(placement_ok(*cfg, code@, old_v, k));
                assert(v@[k] == old_v[k]);
                if k > 0 {
                    assert(v@[k - 1] == old_v[k - 1]);
                }
            }
        }
        last_x = x;
        i = i + 1;
    }
    Some(v)
}

/// Layout bounds: in any layout that fits, every glyph starts inside the
/// padded canvas, horizontally and vertically, and each glyph after the
/// first starts at least the character spacing right of the one before.
pub proof fn lemma_layout_bounds(cfg: CaptchaConfig, chars: Seq<char>, v: Seq<GlyphPlacement>)
    requires
        cfg.wf(),
        layout_fits(cfg, chars, v),
    ensures
        forall|i: int|
            0 <= i < v.len() ==> cfg.padding_x <= #[trigger] v[i].x < cfg.width - cfg.padding_x,
        forall|i: int|
            0 <= i < v.len() ==> cfg.padding_y <= #[trigger] v[i].y < cfg.height - cfg.padding_y,
        forall|i: int| 1 <= i < v.len() ==> #[trigger] v[i].x >= v[i - 1].x + cfg.character_spacing,
{
    assert forall|i: int| 0 <= i < v.len() implies cfg.padding_x <= #[trigger] v[i].x < cfg.width
        - cfg.padding_x by {
        lemma_start_at_least_padding(cfg, chars, v, i);
        assert(placement_ok(cfg, chars, v, i));
    }
    assert forall|i: int| 0 <= i < v.len() implies cfg.padding_y <= #[trigger] v[i].y < cfg.height
        - cfg.padding_y by {
        assert(placement_ok(cfg, chars, v, i));
    }
    assert forall|i: int| 1 <= i < v.len() implies #[trigger] v[i].x >= v[i - 1].x
        + cfg.character_spacing by {
        assert(placement_ok(cfg, chars, v, i));
    }
}

proof fn lemma_start_at_least_padding(
    cfg: CaptchaConfig,
    chars: Seq<char>,
    v: Seq<GlyphPlacement>,
    i: int,
)
    requires
        layout_fits(cfg, chars, v),
        0 <= i < v.len(),
    ensures
        v[i].x >= cfg.padding_x,
    decreases i,
{
    assert(placement_ok(cfg, chars, v, i));
    if i > 0 {
        lemma_start_at_least_padding(cfg, chars, v, i - 1);
    }
}

} // verus!
