use vstd::prelude::*;
use crate::error::{Error, ErrorKind};
use crate::model::Model;

verus! {

/// The model families that can be asked for by name.
#[derive(Clone, Copy, Debug, PartialEq, Eq, Structural)]
pub enum ModelFamily {
    RealCugan,
    RealEsrgan,
    RealEsrganAnime,
    RealEsrAnime,
}

impl ModelFamily {
    /// The family called `name`: `realcugan`, `realesrgan`,
    /// `realesrgan-anime` or `realesr-anime`.
    pub fn from_name(name: &String) -> (r: Option<ModelFamily>)
        ensures
            name@ == "realcugan"@ ==> r == Some(ModelFamily::RealCugan),
            name@ == "realesrgan"@ ==> r == Some(ModelFamily::RealEsrgan),
            name@ == "realesrgan-anime"@ ==> r == Some(ModelFamily::RealEsrganAnime),
            name@ == "realesr-anime"@ ==> r == Some(ModelFamily::RealEsrAnime),
            r is None <==> (name@ != "realcugan"@ && name@ != "realesrgan"@
                && name@ != "realesrgan-anime"@ && name@ != "realesr-anime"@),
    {
        proof {
            reveal_strlit("realcugan");
            reveal_strlit("realesrgan");
            reveal_strlit("realesrgan-anime");
            reveal_strlit("realesr-anime");
            assert("realcugan"@.len() == 9);
            assert("realesrgan"@.len() == 10);
            assert("realesrgan-anime"@.len() == 16);
            assert("realesr-anime"@.len() == 13);
        }
        if *name == "realcugan".to_owned() {
            Some(ModelFamily::RealCugan)
        } else if *name == "realesrgan".to_owned() {
            Some(ModelFamily::RealEsrgan)
        } else if *name == "realesrgan-anime".to_owned() {
            Some(ModelFamily::RealEsrganAnime)
        } else if *name == "realesr-anime".to_owned() {
            Some(ModelFamily::RealEsrAnime)
        } else {
            None
        }
    }

    /// Whether the family offers models of every factor from 2 to 4; the
    /// others come at factor 4 only.
    pub open spec fn spec_variable_scale(self) -> bool {
        self == ModelFamily::RealCugan || self == ModelFamily::RealEsrAnime
    }
}

/// `a / b` rounded to the nearest integer, halves rounded up.
pub open spec fn round_div(a: nat, b: nat) -> nat
    recommends
        b > 0,
{
    ((2 * a + b) / (2 * b)) as nat
}

/// The resolution asked for: both dimensions as given, one of them with the
/// other following the source's aspect ratio, or twice the source.
pub open spec fn target_dimensions(ow: nat, oh: nat, rw: Option<nat>, rh: Option<nat>) -> (nat, nat) {
    match (rw, rh) {
        (Some(w), Some(h)) => (w, h),
        (Some(w), None) => (w, round_div(w * oh, ow)),
        (None, Some(h)) => (round_div(h * ow, oh), h),
        (None, None) => (2 * ow, 2 * oh),
    }
}

/// The target brought to the source's aspect ratio: kept where the two
/// ratios differ by at most 1/100, else narrowed in the dimension that is
/// too large.
pub open spec fn fit_aspect_ratio(tw: nat, th: nat, ow: nat, oh: nat) -> (nat, nat) {
    let wide = tw * oh;
    let tall = ow * th;
    let diff = if wide >= tall { wide - tall } else { tall - wide };
    if diff * 100 <= th * oh {
        (tw, th)
    } else if wide > tall {
        (round_div(th * ow, oh), th)
    } else {
        (tw, round_div(tw * oh, ow))
    }
}

/// The upscale factor: 4 for the fixed-factor families; for the others the
/// least factor from 1 to 3 whose output covers the final resolution, else 4.
pub open spec fn scale_factor(fw: nat, fh: nat, ow: nat, oh: nat, family: ModelFamily) -> nat {
    if !family.spec_variable_scale() {
        4
    } else if fw <= ow && fh <= oh {
        1
    } else if fw <= ow * 2 && fh <= oh * 2 {
        2
    } else if fw <= ow * 3 && fh <= oh * 3 {
        3
    } else {
        4
    }
}

/// The model that runs at `scale`: none at factor 1, where nothing is to be
/// done.
pub open spec fn model_for(scale: nat, family: ModelFamily) -> Option<Model> {
    if scale == 1 {
        None
    } else {
        match family {
            ModelFamily::RealCugan => Some(Model::RealCugan(scale as u8)),
            ModelFamily::RealEsrAnime => Some(Model::RealEsrAnime(scale as u8)),
            ModelFamily::RealEsrgan => Some(Model::RealEsrgan),
            ModelFamily::RealEsrganAnime => Some(Model::RealEsrganAnime),
        }
    }
}

/// The output resolution, upscale factor and model of one job.
#[derive(Clone, Copy, Debug, PartialEq, Eq, Structural)]
pub struct JobPlan {
    pub width: u32,
    pub height: u32,
    pub scale: u8,
    pub model: Option<Model>,
}

impl JobPlan {
    /// A job at factor 1 has nothing to upscale and is skipped.
    pub fn is_skipped(&self) -> (r: bool)
        ensures
            r == (self.scale == 1),
    {
        self.scale == 1
    }
}

proof fn lemma_round_div_bound(a: nat, b: nat)
    requires
        b >= 1,
    ensures
        round_div(a, b) <= a + 1,
{
    let n = (2 * a + b) as int;
    let d = (2 * b) as int;
    let q = n / d;
    vstd::arithmetic::div_mod::lemma_fundamental_div_mod(n, d);
    vstd::arithmetic::div_mod::lemma_mod_pos_bound(n, d);
    assert(q <= a + 1) by (nonlinear_arith)
        requires
            d * q <= n,
            n == 2 * a + b,
            d == 2 * b,
            b >= 1,
            a >= 0,
    ;
}

fn round_div_exec(a: u128, b: u128) -> (r: u128)
    requires
        0 < b <= 0xffff_ffff_ffff_ffff,
        a <= 0x1_0000_0000_0000_0000_0000_0000,
    ensures
        r == round_div(a as nat, b as nat),
        r <= a + 1,
{
    proof {
        lemma_round_div_bound(a as nat, b as nat);
    }
    (2 * a + b) / (2 * b)
}

/// Two bounds, `2^64` on the target and `2^32` on the source, under which the
/// planning arithmetic fits 128 bits.
spec fn within_planning_bounds(tw: u128, th: u128, ow: u128, oh: u128) -> bool {
    &&& tw <= 0x1_0000_0000_0000_0000
    &&& th <= 0x1_0000_0000_0000_0000
    &&& 0 < ow <= 0xffff_ffff
    &&& 0 < oh <= 0xffff_ffff
}

fn target_dimensions_exec(ow: u128, oh: u128, rw: Option<u32>, rh: Option<u32>) -> (r: (u128, u128))
    requires
        0 < ow <= 0xffff_ffff,
        0 < oh <= 0xffff_ffff,
    ensures
        within_planning_bounds(r.0, r.1, ow, oh),
        (r.0 as nat, r.1 as nat) == target_dimensions(
            ow as nat,
            oh as nat,
            match rw { Some(w) => Some(w as nat), None => None },
            match rh { Some(h) => Some(h as nat), None => None },
        ),
{
    match (rw, rh) {
        (Some(w), Some(h)) => (w as u128, h as u128),
        (Some(w), None) => {
            let w = w as u128;
            assert(w * oh <= 0xffff_ffffu128 * 0xffff_ffffu128) by (nonlinear_arith)
                requires
                    w <= 0xffff_ffffu128,
                    oh <= 0xffff_ffffu128,
            ;
            (w, round_div_exec(w * oh, ow))
        },
        (None, Some(h)) => {
            let h = h as u128;
            assert(h * ow <= 0xffff_ffffu128 * 0xffff_ffffu128) by (nonlinear_arith)
                requires
                    h <= 0xffff_ffffu128,
                    ow <= 0xffff_ffffu128,
            ;
            (round_div_exec(h * ow, oh), h)
        },
        (None, None) => (2 * ow, 2 * oh),
    }
}

fn fit_aspect_ratio_exec(tw: u128, th: u128, ow: u128, oh: u128) -> (r: (u128, u128))
    requires
        within_planning_bounds(tw, th, ow, oh),
    ensures
        (r.0 as nat, r.1 as nat) == fit_aspect_ratio(tw as nat, th as nat, ow as nat, oh as nat),
{
    assert(tw * oh <= 0x1_0000_0000_0000_0000u128 * 0xffff_ffffu128
        && ow * th <= 0x1_0000_0000_0000_0000u128 * 0xffff_ffffu128
        && th * oh <= 0x1_0000_0000_0000_0000u128 * 0xffff_ffffu128
        && th * ow <= 0x1_0000_0000_0000_0000u128 * 0xffff_ffffu128
        && tw * oh <= 0x1_0000_0000_0000_0000u128 * 0xffff_ffffu128) by (nonlinear_arith)
        requires
            within_planning_bounds(tw, th, ow, oh),
    ;
    let wide = tw * oh;
    let tall = ow * th;
    let diff = if wide >= tall { wide - tall } else { tall - wide };
    if diff * 100 <= th * oh {
        (tw, th)
    } else if wide > tall {
        (round_div_exec(th * ow, oh), th)
    } else {
        (tw, round_div_exec(tw * oh, ow))
    }
}

fn scale_factor_exec(fw: u128, fh: u128, ow: u128, oh: u128, family: ModelFamily) -> (r: u8)
    requires
        ow <= 0xffff_ffff,
        oh <= 0xffff_ffff,
    ensures
        r as nat == scale_factor(fw as nat, fh as nat, ow as nat, oh as nat, family),
{
    if family != ModelFamily::RealCugan && family != ModelFamily::RealEsrAnime {
        4
    } else if fw <= ow && fh <= oh {
        1
    } else if fw <= ow * 2 && fh <= oh * 2 {
        2
    } else if fw <= ow * 3 && fh <= oh * 3 {
        3
    } else {
        4
    }
}

fn model_for_exec(scale: u8, family: ModelFamily) -> (r: Option<Model>)
    ensures
        r == model_for(scale as nat, family),
{
    if scale == 1 {
        None
    } else {
        match family {
            ModelFamily::RealCugan => Some(Model::RealCugan(scale)),
            ModelFamily::RealEsrAnime => Some(Model::RealEsrAnime(scale)),
            ModelFamily::RealEsrgan => Some(Model::RealEsrgan),
            ModelFamily::RealEsrganAnime => Some(Model::RealEsrganAnime),
        }
    }
}

/// Plans one job from the source's dimensions, the dimensions asked for and
/// the model family: the final resolution is the target brought to the
/// source's aspect ratio, and the factor and model follow from it.
///
/// An `Argument` error where a source dimension is 0, or where the final
/// resolution does not fit 32 bits.
pub fn plan_job(
    source_width: u32,
    source_height: u32,
    requested_width: Option<u32>,
    requested_height: Option<u32>,
    family: ModelFamily,
) -> (r: Result<JobPlan, Error>)
    ensures
        ({
            let ow = source_width as nat;
            let oh = source_height as nat;
            let rw = match requested_width { Some(w) => Some(w as nat), None => None };
            let rh = match requested_height { Some(h) => Some(h as nat), None => None };
            let (tw, th) = target_dimensions(ow, oh, rw, rh);
            let (fw, fh) = fit_aspect_ratio(tw, th, ow, oh);
            match r {
                Ok(plan) => ow > 0 && oh > 0 && fw <= u32::MAX && fh <= u32::MAX
                    && plan.width == fw && plan.height == fh
                    && plan.scale == scale_factor(fw, fh, ow, oh, family)
                    && plan.model == model_for(plan.scale as nat, family),
                Err(e) => e.kind == ErrorKind::Argument
                    && (ow == 0 || oh == 0 || fw > u32::MAX || fh > u32::MAX),
            }
        }),
{
    if source_width == 0 || source_height == 0 {
        return Err(Error::with_kind(ErrorKind::Argument, "the video reports no dimensions".to_owned()));
    }
    let ow = source_width as u128;
    let oh = source_height as u128;
    let (tw, th) = target_dimensions_exec(ow, oh, requested_width, requested_height);
    let (fw, fh) = fit_aspect_ratio_exec(tw, th, ow, oh);
    if fw > u32::MAX as u128 || fh > u32::MAX as u128 {
        return Err(Error::with_kind(ErrorKind::Argument, "the target resolution is too large".to_owned()));
    }
    let scale = scale_factor_exec(fw, fh, ow, oh, family);
    let model = model_for_exec(scale, family);
    Ok(JobPlan { width: fw as u32, height: fh as u32, scale, model })
}

} // verus!
