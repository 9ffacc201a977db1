//! The optional Real-ESRGAN upscaler: whether it can run, and with which model and factor.
use vstd::prelude::*;
use std::path::PathBuf;
use crate::domain::{CropMode, UpscaleMode};
use crate::text::has_part;

verus! {

/// The Real-ESRGAN executable, when one was found.
#[derive(Debug)]
pub struct Upscaler {
    executable: Option<PathBuf>,
}

/// Why frames cannot be upscaled.
#[derive(Debug, Clone, Copy, PartialEq, Eq, Structural)]
pub enum UpscaleError {
    /// No Real-ESRGAN executable was found.
    NotInstalled,
    /// The preset asks for no upscaling.
    Disabled,
}

/// The model and factor of one Real-ESRGAN run.
#[derive(Debug, Clone)]
pub struct EsrganPlan {
    pub model: String,
    pub scale: u8,
}

/// The Real-ESRGAN model for a mode: the anime-video model for `Anime` and `Auto`, the general
/// x4 model for `General`, none when upscaling is off.
pub open spec fn esrgan_model_text(mode: UpscaleMode) -> Option<Seq<char>> {
    match mode {
        UpscaleMode::Anime => Some("realesr-animevideov3"@),
        UpscaleMode::General => Some("realesrgan-x4plus"@),
        UpscaleMode::Auto => Some("realesr-animevideov3"@),
        UpscaleMode::Off => None,
    }
}

/// A requested factor brought into the range Real-ESRGAN supports, 2 to 4.
pub open spec fn clamped_scale(scale: u8) -> u8 {
    if scale < 2 {
        2
    } else if scale > 4 {
        4
    } else {
        scale
    }
}

/// Real-ESRGAN is always asked for a factor of 2, 3 or 4.
pub proof fn lemma_scale_supported(scale: u8)
    ensures
        2 <= clamped_scale(scale) <= 4,
        2 <= scale <= 4 ==> clamped_scale(scale) == scale,
{
}

/// What the render does about AI upscaling.
#[derive(Debug, Clone, Copy, PartialEq, Eq, Structural)]
pub enum UpscaleRoute {
    /// The source is rendered as it is.
    Direct,
    /// The frames are upscaled with Real-ESRGAN before the render.
    Enhance,
    /// Upscaling is wanted but Real-ESRGAN is missing: the render scales with Lanczos.
    Lanczos,
}

/// Upscaling is wanted when the preset asks for it, the frame is not fitted over a blurred
/// background, and the cropped source is narrower than the output (`narrower_than_output`).
pub open spec fn wants_upscale(mode: UpscaleMode, crop: CropMode, narrower_than_output: bool) -> bool {
    mode != UpscaleMode::Off && crop != CropMode::BlurredBackground && narrower_than_output
}

/// When upscaling is wanted: never when the preset turns it off, never over a blurred
/// background, never when the cropped source is already as wide as the output; the dynamic and
/// the centred crop are treated alike; and any mode other than off, with a cropping mode and a
/// source narrower than the output, wants it.
pub proof fn lemma_when_upscale_is_wanted(mode: UpscaleMode, crop: CropMode, narrower_than_output: bool)
    ensures
        !wants_upscale(UpscaleMode::Off, crop, narrower_than_output),
        !wants_upscale(mode, CropMode::BlurredBackground, narrower_than_output),
        !wants_upscale(mode, crop, false),
        wants_upscale(mode, CropMode::Dynamic, narrower_than_output) == wants_upscale(
            mode,
            CropMode::Center,
            narrower_than_output,
        ),
        mode != UpscaleMode::Off ==> wants_upscale(mode, CropMode::Center, true) && wants_upscale(
            mode,
            CropMode::Dynamic,
            true,
        ),
{
}

/// The warning a render reports about upscaling: when Real-ESRGAN is missing, or when its run
/// failed with `failure`, the export goes on through the fallback scaling and says so.
pub open spec fn upscale_warning_text(route: UpscaleRoute, failure: Option<Seq<char>>) -> Option<Seq<char>> {
    match route {
        UpscaleRoute::Direct => None,
        UpscaleRoute::Lanczos => Some("Real-ESRGAN не встановлено — використано якісний Lanczos fallback."@),
        UpscaleRoute::Enhance => match failure {
            Some(e) => Some("AI-upscale недоступний: "@ + e + ". Використано якісний FFmpeg fallback."@),
            None => None,
        },
    }
}

/// A render reports a warning exactly when upscaling was wanted and could not be done: when
/// Real-ESRGAN is missing, or when its run failed, in which case the warning quotes the failure.
/// A render that never wanted upscaling, or whose upscaling succeeded, reports none.
pub proof fn lemma_fallback_is_reported(route: UpscaleRoute, failure: Option<Seq<char>>)
    ensures
        upscale_warning_text(route, failure) is Some <==> (route == UpscaleRoute::Lanczos || (route
            == UpscaleRoute::Enhance && failure is Some)),
        route == UpscaleRoute::Enhance && failure is Some ==> has_part(
            upscale_warning_text(route, failure).unwrap(),
            failure.unwrap(),
        ),
{
    if route == UpscaleRoute::Enhance && failure is Some {
        let e = failure.unwrap();
        let a = "AI-upscale недоступний: "@;
        let b = ". Використано якісний FFmpeg fallback."@;
        assert(upscale_warning_text(route, failure).unwrap() == a + e + b);
    }
}

/// The text of a failure, if there is one.
pub open spec fn failure_text(failure: Option<&str>) -> Option<Seq<char>> {
    match failure {
        Some(e) => Some(e@),
        None => None,
    }
}

/// The warning of a render that took `route`; `failure` is the error of the Real-ESRGAN
/// stage, if it failed.
pub fn upscale_warning(route: UpscaleRoute, failure: Option<&str>) -> (r: Option<String>)
    ensures
        match r {
            Some(w) => upscale_warning_text(route, failure_text(failure)) == Some(w@),
            None => upscale_warning_text(route, failure_text(failure)) is None,
        },
{
    match route {
        UpscaleRoute::Direct => None,
        UpscaleRoute::Lanczos => Some("Real-ESRGAN не встановлено — використано якісний Lanczos fallback.".to_owned()),
        UpscaleRoute::Enhance => match failure {
            Some(e) => {
                let mut w = "AI-upscale недоступний: ".to_owned();
                w.append(e);
                w.append(". Використано якісний FFmpeg fallback.");
                Some(w)
            },
            None => None,
        },
    }
}

impl Upscaler {
    /// The executable the upscaler runs, if any.
    pub closed spec fn executable_path(&self) -> Option<PathBuf> {
        self.executable
    }

    /// The upscaler has an executable to run.
    pub open spec fn installed(&self) -> bool {
        self.executable_path() is Some
    }

    /// An upscaler that runs `executable`, or none.
    pub fn with_executable(executable: Option<PathBuf>) -> (r: Self)
        ensures
            r.executable_path() == executable,
    {
        Upscaler { executable }
    }

    /// Whether Real-ESRGAN can be run.
    pub fn available(&self) -> (r: bool)
        ensures
            r == self.installed(),
    {
        match &self.executable {
            Some(_) => true,
            None => false,
        }
    }

    /// The executable to run, if there is one.
    pub fn executable(&self) -> (r: Option<&PathBuf>)
        ensures
            match r {
                Some(p) => self.executable_path() == Some(*p),
                None => self.executable_path() is None,
            },
    {
        match &self.executable {
            Some(p) => Some(p),
            None => None,
        }
    }

    /// The route of a render: direct when upscaling is not wanted, through Real-ESRGAN when it
    /// is wanted and installed, through Lanczos scaling when it is wanted but missing.
    pub fn route(&self, mode: &UpscaleMode, crop: &CropMode, narrower_than_output: bool) -> (r: UpscaleRoute)
        ensures
            r == if !wants_upscale(*mode, *crop, narrower_than_output) {
                UpscaleRoute::Direct
            } else if self.installed() {
                UpscaleRoute::Enhance
            } else {
                UpscaleRoute::Lanczos
            },
    {
        let wanted = match mode {
            UpscaleMode::Off => false,
            _ => match crop {
                CropMode::BlurredBackground => false,
                _ => narrower_than_output,
            },
        };
        if !wanted {
            UpscaleRoute::Direct
        } else if self.available() {
            UpscaleRoute::Enhance
        } else {
            UpscaleRoute::Lanczos
        }
    }

    /// What a run for `mode` at factor `scale` would do: an error when no executable is
    /// installed (checked first) or when `mode` is `Off`; otherwise the mode's model and the
    /// factor clamped to 2–4.
    pub fn plan(&self, mode: &UpscaleMode, scale: u8) -> (r: Result<EsrganPlan, UpscaleError>)
        ensures
            !self.installed() ==> r == Err::<EsrganPlan, UpscaleError>(UpscaleError::NotInstalled),
            self.installed() && *mode == UpscaleMode::Off ==> r == Err::<EsrganPlan, UpscaleError>(
                UpscaleError::Disabled,
            ),
            self.installed() && *mode != UpscaleMode::Off ==> (r matches Ok(p) && Some(p.model@)
                == esrgan_model_text(*mode) && p.scale == clamped_scale(scale)),
    {
        if !self.available() {
            return Err(UpscaleError::NotInstalled);
        }
        let model = match mode {
            UpscaleMode::Anime => "realesr-animevideov3",
            UpscaleMode::General => "realesrgan-x4plus",
            UpscaleMode::Auto => "realesr-animevideov3",
            UpscaleMode::Off => {
                return Err(UpscaleError::Disabled);
            },
        };
        let factor = if scale < 2 {
            2
        } else if scale > 4 {
            4
        } else {
            scale
        };
        Ok(EsrganPlan { model: model.to_owned(), scale: factor })
    }
}

impl UpscaleError {
    /// The message shown for the error.
    pub fn message(&self) -> (r: String)
        ensures
            r@ == match *self {
                UpscaleError::NotInstalled => "Real-ESRGAN не встановлено"@,
                UpscaleError::Disabled => "AI-upscale вимкнено"@,
            },
    {
        match self {
            UpscaleError::NotInstalled => "Real-ESRGAN не встановлено".to_owned(),
            UpscaleError::Disabled => "AI-upscale вимкнено".to_owned(),
        }
    }
}

} // verus!
