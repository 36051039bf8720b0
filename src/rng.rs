use vstd::prelude::*;

verus! {

/// A source of random numbers.
pub trait Rng {
    /// Any number at all.
    fn next_int(&mut self) -> i32;

    /// A number in the half-open range `[k, n)`: `k` can come out, `n` cannot.
    fn between(&mut self, k: i32, n: i32) -> (r: i32)
        requires
            k < n,
        ensures
            k <= r < n,
    ;
}

/// One element of `slice` picked by `rng`, or `None` when it is empty.
pub fn choose_element<'a, R: Rng, T>(rng: &mut R, slice: &'a [T]) -> (r: Option<&'a T>)
    requires
        slice@.len() <= i32::MAX,
    ensures
        r is None <==> slice@.len() == 0,
        slice@.len() == 0 ==> *final(rng) == *old(rng),
        r matches Some(e) ==> exists|i: int| 0 <= i < slice@.len() && slice@[i] == *e,
{
    if slice.len() == 0 {
        None
    } else {
        let i = rng.between(0, slice.len() as i32);
        Some(&slice[i as usize])
    }
}

/// Declares rltk's `RandomNumberGenerator` so that it can be held and passed
/// around; nothing inside it is looked at.
#[verifier::external_type_specification]
#[verifier::external_body]
pub struct ExRandomNumberGenerator(rltk::RandomNumberGenerator);

/// The random number generator of rltk, seen through [`Rng`].
pub struct RltkRng {
    pub rng: rltk::RandomNumberGenerator,
}

/// Relies on rltk's `RandomNumberGenerator::rand::<i32>`: any `i32`.
#[verifier::external_body]
fn rltk_rand(rng: &mut rltk::RandomNumberGenerator) -> i32 {
    rng.rand::<i32>()
}

/// Relies on rltk's `RandomNumberGenerator::range::<i32>`, which draws with
/// `gen_range(min..max)`: the lower bound is included, the upper one not, and
/// an empty range panics.
#[verifier::external_body]
fn rltk_range(rng: &mut rltk::RandomNumberGenerator, min: i32, max: i32) -> (r: i32)
    requires
        min < max,
    ensures
        min <= r < max,
{
    rng.range(min, max)
}

impl Rng for RltkRng {
    fn next_int(&mut self) -> i32 {
        rltk_rand(&mut self.rng)
    }

    fn between(&mut self, k: i32, n: i32) -> (r: i32) {
        rltk_range(&mut self.rng, k, n)
    }
}

} // verus!
