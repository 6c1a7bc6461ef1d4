//! The light-transport estimator: the colour that arrives along a ray after
//! at most a given number of bounces.
use crate::color::Color;
use crate::object::HitRecord;
use crate::ray::Ray;
use crate::scalar::Scalar;
use vstd::prelude::*;

verus! {

/// The key of `0.001`: hits closer to a ray's origin than this are not
/// looked for, so that a scattered ray does not meet the surface it leaves.
pub const SHADOW_EPSILON: Scalar = 0x3F50_624D_D2F1_A9FC;

/// Whether the path of `ray` may end here with `color`: the scene, asked
/// for the nearest hit between [`SHADOW_EPSILON`] and infinity, gives none
/// and `color` is what `background` gives for the ray; or it gives a hit,
/// the material absorbs the ray and `color` is black.
pub open spec fn ends<N, S, B>(
    nearest: N,
    scatter: S,
    background: B,
    ray: Ray,
    color: Color,
) -> bool where
    N: Fn(&Ray, Scalar, Scalar) -> Option<HitRecord>,
    S: Fn(&Ray, HitRecord) -> Option<(Color, Ray)>,
    B: Fn(&Ray) -> Color,
 {
    exists|hit: Option<HitRecord>|
        {
            &&& #[trigger] call_ensures(
                nearest,
                (&ray, SHADOW_EPSILON, crate::scalar::INFINITY),
                hit,
            )
            &&& match hit {
                None => call_ensures(background, (&ray,), color),
                Some(record) => call_ensures(scatter, (&ray, record), None::<(Color, Ray)>)
                    && color.is_black(),
            }
        }
}

/// Whether `ray` may be scattered into `next` with `attenuation`: the
/// scene, asked for the nearest hit between [`SHADOW_EPSILON`] and
/// infinity, gives a hit, and the material that was hit gives the two.
pub open spec fn scatters<N, S>(
    nearest: N,
    scatter: S,
    ray: Ray,
    attenuation: Color,
    next: Ray,
) -> bool where
    N: Fn(&Ray, Scalar, Scalar) -> Option<HitRecord>,
    S: Fn(&Ray, HitRecord) -> Option<(Color, Ray)>,
 {
    exists|record: HitRecord|
        {
            &&& #[trigger] call_ensures(
                nearest,
                (&ray, SHADOW_EPSILON, crate::scalar::INFINITY),
                Some(record),
            )
            &&& call_ensures(scatter, (&ray, record), Some((attenuation, next)))
        }
}

/// Whether `color` is a colour that the estimator may resolve `ray` to with
/// `budget` bounces left, given what the four functions may answer.
///
/// With no bounce left the colour is black. Otherwise either the path
/// ends here with the colour (see [`ends`]), or the ray is scattered (see
/// [`scatters`]) and the colour is what `attenuate` makes of the
/// attenuation and of a colour that the scattered ray resolves to with one
/// bounce fewer.
pub open spec fn resolves<N, S, B, M>(
    nearest: N,
    scatter: S,
    background: B,
    attenuate: M,
    ray: Ray,
    budget: nat,
    color: Color,
) -> bool where
    N: Fn(&Ray, Scalar, Scalar) -> Option<HitRecord>,
    S: Fn(&Ray, HitRecord) -> Option<(Color, Ray)>,
    B: Fn(&Ray) -> Color,
    M: Fn(Color, Color) -> Color,

    decreases budget,
{
    if budget == 0 {
        color.is_black()
    } else {
        ||| ends(nearest, scatter, background, ray, color)
        ||| exists|attenuation: Color, next: Ray, inner: Color|
            {
                &&& #[trigger] scatters(nearest, scatter, ray, attenuation, next)
                &&& resolves(
                    nearest,
                    scatter,
                    background,
                    attenuate,
                    next,
                    (budget - 1) as nat,
                    inner,
                )
                &&& #[trigger] call_ensures(attenuate, (attenuation, inner), color)
            }
    }
}

/// What becomes of a ray at its next meeting with the scene.
enum Bounce {
    /// The path ends with this colour.
    Ended(Color),
    /// The ray is scattered with this attenuation into this ray.
    Scattered(Color, Ray),
}

/// Follows a ray to its next meeting with the scene.
fn bounce<N, S, B>(ray: &Ray, nearest: &N, scatter: &S, background: &B) -> (met: Bounce) where
    N: Fn(&Ray, Scalar, Scalar) -> Option<HitRecord>,
    S: Fn(&Ray, HitRecord) -> Option<(Color, Ray)>,
    B: Fn(&Ray) -> Color,

    requires
        forall|r: &Ray, lo: Scalar, hi: Scalar| call_requires(*nearest, (r, lo, hi)),
        forall|r: &Ray, record: HitRecord| call_requires(*scatter, (r, record)),
        forall|r: &Ray| call_requires(*background, (r,)),
    ensures
        match met {
            Bounce::Ended(color) => ends(*nearest, *scatter, *background, *ray, color),
            Bounce::Scattered(attenuation, next) => scatters(
                *nearest,
                *scatter,
                *ray,
                attenuation,
                next,
            ),
        },
{
    let hit = nearest(ray, SHADOW_EPSILON, crate::scalar::INFINITY);
    match hit {
        None => {
            let color = background(ray);
            Bounce::Ended(color)
        },
        Some(record) => {
            let scattered = scatter(ray, record);
            match scattered {
                None => Bounce::Ended(Color::black()),
                Some((attenuation, next)) => Bounce::Scattered(attenuation, next),
            }
        },
    }
}

/// Resolves a ray to a colour, following it for at most `max_bounces` bounces.
///
/// `nearest` finds the nearest hit of a ray in the scene between two ray
/// parameters, `scatter` asks the material that was hit for an attenuation
/// and an outgoing ray, `background` gives the colour of a ray that leaves
/// the scene, and `attenuate` multiplies a colour by an attenuation.
///
/// The path is followed to its end first and the attenuations are applied
/// on the way back, the last one first, so that a long path needs no more
/// than a list of its attenuations.
pub fn ray_color<N, S, B, M>(
    ray: &Ray,
    max_bounces: u32,
    nearest: &N,
    scatter: &S,
    background: &B,
    attenuate: &M,
) -> (color: Color) where
    N: Fn(&Ray, Scalar, Scalar) -> Option<HitRecord>,
    S: Fn(&Ray, HitRecord) -> Option<(Color, Ray)>,
    B: Fn(&Ray) -> Color,
    M: Fn(Color, Color) -> Color,

    requires
        forall|r: &Ray, lo: Scalar, hi: Scalar| call_requires(*nearest, (r, lo, hi)),
        forall|r: &Ray, record: HitRecord| call_requires(*scatter, (r, record)),
        forall|r: &Ray| call_requires(*background, (r,)),
        forall|a: Color, b: Color| call_requires(*attenuate, (a, b)),
    ensures
        max_bounces == 0 ==> color.is_black(),
        resolves(
            *nearest,
            *scatter,
            *background,
            *attenuate,
            *ray,
            max_bounces as nat,
            color,
        ),
{
    if max_bounces == 0 {
        return Color::black();
    }
    let mut attenuations: Vec<Color> = Vec::new();
    let ghost mut rays: Seq<Ray> = seq![*ray];
    let mut current: Ray = match bounce(ray, nearest, scatter, background) {
        Bounce::Ended(color) => {
            return color;
        },
        Bounce::Scattered(attenuation, next) => {
            attenuations.push(attenuation);
            next
        },
    };
    proof {
        rays = rays.push(current);
    }
    let mut remaining: u32 = max_bounces - 1;
    let mut color: Color = Color::black();
    loop
        invariant_except_break
            remaining + attenuations@.len() == max_bounces,
        invariant
            forall|r: &Ray, lo: Scalar, hi: Scalar| call_requires(*nearest, (r, lo, hi)),
            forall|r: &Ray, record: HitRecord| call_requires(*scatter, (r, record)),
            forall|r: &Ray| call_requires(*background, (r,)),
            0 < attenuations@.len() <= max_bounces,
            rays.len() == attenuations@.len() + 1,
            rays[0] == *ray,
            rays.last() == current,
            forall|k: int|
                0 <= k < attenuations@.len() ==> #[trigger] scatters(
                    *nearest,
                    *scatter,
                    rays[k],
                    attenuations@[k],
                    rays[k + 1],
                ),
        ensures
            resolves(
                *nearest,
                *scatter,
                *background,
                *attenuate,
                rays.last(),
                (max_bounces - attenuations@.len()) as nat,
                color,
            ),
        decreases remaining,
    {
        if remaining == 0 {
            color = Color::black();
            break ;
        }
        match bounce(&current, nearest, scatter, background) {
            Bounce::Ended(ended) => {
                color = ended;
                break ;
            },
            Bounce::Scattered(attenuation, next) => {
                attenuations.push(attenuation);
                current = next;
                proof {
                    let before = rays;
                    rays = rays.push(current);
                    assert forall|k: int| 0 <= k < attenuations@.len() implies #[trigger] scatters(
                        *nearest,
                        *scatter,
                        rays[k],
                        attenuations@[k],
                        rays[k + 1],
                    ) by {
                        if k < attenuations@.len() - 1 {
                            assert(scatters(
                                *nearest,
                                *scatter,
                                before[k],
                                attenuations@[k],
                                before[k + 1],
                            ));
                        }
                    }
                }
                remaining = remaining - 1;
            },
        }
    }
    let mut k: usize = attenuations.len();
    while k > 0
        invariant
            forall|a: Color, b: Color| call_requires(*attenuate, (a, b)),
            k <= attenuations@.len() <= max_bounces,
            rays.len() == attenuations@.len() + 1,
            forall|k: int|
                0 <= k < attenuations@.len() ==> #[trigger] scatters(
                    *nearest,
                    *scatter,
                    rays[k],
                    attenuations@[k],
                    rays[k + 1],
                ),
            resolves(
                *nearest,
                *scatter,
                *background,
                *attenuate,
                rays[k as int],
                (max_bounces - k) as nat,
                color,
            ),
        decreases k,
    {
        k = k - 1;
        let inner = color;
        color = attenuate(attenuations[k], inner);
        proof {
            assert(scatters(
                *nearest,
                *scatter,
                rays[k as int],
                attenuations@[k as int],
                rays[k + 1],
            ));
            assert(call_ensures(*attenuate, (attenuations@[k as int], inner), color));
        }
    }
    color
}

/// With no bounce left every ray resolves to black, and to nothing else,
/// whatever the scene holds.
pub proof fn lemma_no_bounce_is_black<N, S, B, M>(
    nearest: N,
    scatter: S,
    background: B,
    attenuate: M,
    ray: Ray,
    color: Color,
) where
    N: Fn(&Ray, Scalar, Scalar) -> Option<HitRecord>,
    S: Fn(&Ray, HitRecord) -> Option<(Color, Ray)>,
    B: Fn(&Ray) -> Color,
    M: Fn(Color, Color) -> Color,

    ensures
        resolves(nearest, scatter, background, attenuate, ray, 0, color)
            <==> color.is_black(),
{
}

/// A ray with a bounce left resolves to a colour in one of two ways: its
/// path ends here with that colour, or it is scattered and the colour is
/// the attenuated colour of the scattered ray, resolved with one bounce
/// fewer.
pub proof fn lemma_first_bounce<N, S, B, M>(
    nearest: N,
    scatter: S,
    background: B,
    attenuate: M,
    ray: Ray,
    budget: nat,
    color: Color,
) where
    N: Fn(&Ray, Scalar, Scalar) -> Option<HitRecord>,
    S: Fn(&Ray, HitRecord) -> Option<(Color, Ray)>,
    B: Fn(&Ray) -> Color,
    M: Fn(Color, Color) -> Color,

    requires
        budget > 0,
    ensures
        resolves(nearest, scatter, background, attenuate, ray, budget, color) <==> {
            ||| ends(nearest, scatter, background, ray, color)
            ||| exists|attenuation: Color, next: Ray, inner: Color|
                {
                    &&& #[trigger] scatters(nearest, scatter, ray, attenuation, next)
                    &&& resolves(
                        nearest,
                        scatter,
                        background,
                        attenuate,
                        next,
                        (budget - 1) as nat,
                        inner,
                    )
                    &&& #[trigger] call_ensures(attenuate, (attenuation, inner), color)
                }
        },
{
}

} // verus!
