use vstd::prelude::*;
use crate::error::Error;
use crate::video::{
    JobPlan, ModelFamily, fit_aspect_ratio, model_for, plan_job, scale_factor, target_dimensions,
};

verus! {

/// The driver of the five stages, one job after another.
pub struct Pipeline;

impl Pipeline {
    /// Decides a job: `None` where its factor is 1 and it is skipped, else
    /// the plan that the stages run by. Errors as `plan_job` gives them.
    pub fn prepare(
        source_width: u32,
        source_height: u32,
        requested_width: Option<u32>,
        requested_height: Option<u32>,
        family: ModelFamily,
    ) -> (r: Result<Option<JobPlan>, Error>)
        ensures
            ({
                let ow = source_width as nat;
                let oh = source_height as nat;
                let rw = match requested_width { Some(w) => Some(w as nat), None => None };
                let rh = match requested_height { Some(h) => Some(h as nat), None => None };
                let (tw, th) = target_dimensions(ow, oh, rw, rh);
                let (fw, fh) = fit_aspect_ratio(tw, th, ow, oh);
                let scale = scale_factor(fw, fh, ow, oh, family);
                match r {
                    Ok(Some(plan)) => ow > 0 && oh > 0 && fw <= u32::MAX && fh <= u32::MAX && scale != 1
                        && plan.width == fw && plan.height == fh && plan.scale == scale
                        && plan.model == model_for(scale, family),
                    Ok(None) => ow > 0 && oh > 0 && fw <= u32::MAX && fh <= u32::MAX && scale == 1,
                    Err(_) => ow == 0 || oh == 0 || fw > u32::MAX || fh > u32::MAX,
                }
            }),
    {
        match plan_job(source_width, source_height, requested_width, requested_height, family) {
            Ok(plan) => {
                if plan.is_skipped() {
                    Ok(None)
                } else {
                    Ok(Some(plan))
                }
            },
            Err(e) => Err(e),
        }
    }
}

} // verus!
