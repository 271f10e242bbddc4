//! The cosmetic configuration a player carries. The simulation replicates it
//! and never reads it.
use rand::rngs::StdRng;
use vstd::prelude::*;

use crate::random::draw_below;

verus! {

#[derive(Clone, Debug, PartialEq, Eq)]
pub struct Config {
    pub secret: Option<String>,
    pub hat: Option<String>,
    pub coat: Option<String>,
    pub pants: Option<String>,
    pub equipment: Option<String>,
    pub face: Option<String>,
}

pub struct ConfigView {
    pub secret: Option<Seq<char>>,
    pub hat: Option<Seq<char>>,
    pub coat: Option<Seq<char>>,
    pub pants: Option<Seq<char>>,
    pub equipment: Option<Seq<char>>,
    pub face: Option<Seq<char>>,
}

pub open spec fn opt_view(o: Option<String>) -> Option<Seq<char>> {
    match o {
        Some(s) => Some(s@),
        None => None,
    }
}

impl View for Config {
    type V = ConfigView;

    open spec fn view(&self) -> ConfigView {
        ConfigView {
            secret: opt_view(self.secret),
            hat: opt_view(self.hat),
            coat: opt_view(self.coat),
            pants: opt_view(self.pants),
            equipment: opt_view(self.equipment),
            face: opt_view(self.face),
        }
    }
}

pub fn same_text(a: &Option<String>, b: &Option<String>) -> (r: bool)
    ensures
        r == (opt_view(*a) == opt_view(*b)),
{
    match a {
        Some(x) => match b {
            Some(y) => *x == *y,
            None => false,
        },
        None => b.is_none(),
    }
}

pub fn copy_text(a: &Option<String>) -> (r: Option<String>)
    ensures
        opt_view(r) == opt_view(*a),
{
    match a {
        Some(x) => Some(x.clone()),
        None => None,
    }
}

impl Config {
    /// A configuration that names no item.
    pub fn plain() -> (r: Config)
        ensures
            r@.secret is None && r@.hat is None && r@.coat is None && r@.pants is None
                && r@.equipment is None && r@.face is None,
    {
        Config { secret: None, hat: None, coat: None, pants: None, equipment: None, face: None }
    }

    /// Equality of what the two configurations name.
    pub fn same(&self, other: &Config) -> (r: bool)
        ensures
            r == (self@ == other@),
    {
        same_text(&self.secret, &other.secret) && same_text(&self.hat, &other.hat) && same_text(
            &self.coat,
            &other.coat,
        ) && same_text(&self.pants, &other.pants) && same_text(&self.equipment, &other.equipment)
            && same_text(&self.face, &other.face)
    }

    /// A copy with the same view.
    pub fn duplicate(&self) -> (r: Config)
        ensures
            r@ == self@,
    {
        Config {
            secret: copy_text(&self.secret),
            hat: copy_text(&self.hat),
            coat: copy_text(&self.coat),
            pants: copy_text(&self.pants),
            equipment: copy_text(&self.equipment),
            face: copy_text(&self.face),
        }
    }
}


/// One of `options`, drawn from `rng`; none when there is no option.
fn pick(options: &Vec<String>, rng: &mut StdRng) -> (r: Option<String>)
    ensures
        options@.len() == 0 ==> r is None,
        options@.len() > 0 ==> exists|i: int| 0 <= i < options@.len() && opt_view(r) == Some(options@[i]@),
{
    if options.len() == 0 {
        return None;
    }
    let len: u64 = options.len() as u64;
    let n: i64 = if len > 0x7fff_ffff_ffff_ffff { 0x7fff_ffff_ffff_ffff } else { len as i64 };
    let i = draw_below(rng, 0, n) as usize;
    assert(i < options@.len());
    let r = Some(options[i].clone());
    assert(opt_view(r) == Some(options@[i as int]@));
    r
}

impl Config {
    /// A configuration with an item drawn from each slot's options, and no
    /// secret skin.
    pub fn random(options: &crate::lobby::SkinOptions, rng: &mut StdRng) -> (r: Config)
        ensures
            r@.secret is None,
            options.hat@.len() > 0 ==> exists|i: int| 0 <= i < options.hat@.len() && r@.hat == Some(options.hat@[i]@),
            options.coat@.len() > 0 ==> exists|i: int| 0 <= i < options.coat@.len() && r@.coat == Some(options.coat@[i]@),
            options.pants@.len() > 0 ==> exists|i: int| 0 <= i < options.pants@.len() && r@.pants == Some(options.pants@[i]@),
            options.equipment@.len() > 0 ==> exists|i: int| 0 <= i < options.equipment@.len() && r@.equipment == Some(options.equipment@[i]@),
            options.face@.len() > 0 ==> exists|i: int| 0 <= i < options.face@.len() && r@.face == Some(options.face@[i]@),
            options.hat@.len() == 0 ==> r@.hat is None,
            options.coat@.len() == 0 ==> r@.coat is None,
            options.pants@.len() == 0 ==> r@.pants is None,
            options.equipment@.len() == 0 ==> r@.equipment is None,
            options.face@.len() == 0 ==> r@.face is None,
    {
        let hat = pick(&options.hat, rng);
        let coat = pick(&options.coat, rng);
        let pants = pick(&options.pants, rng);
        let equipment = pick(&options.equipment, rng);
        let face = pick(&options.face, rng);
        Config { secret: None, hat, coat, pants, equipment, face }
    }
}

} // verus!
