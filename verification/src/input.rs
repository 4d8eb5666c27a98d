//! What the user has entered: the functions to plot, the domain to plot
//! them over, and how the plot is dressed.
pub mod fn_input;

pub use fn_input::{FnInput, FnInputKind, FormatError};

use crate::binary64::{greater, lesser, maximum, minimum};
use crate::decimal::{number, parse_number};
use crate::input::fn_input::{FnInputKindView, FnInputView, DEFAULT_INPUT};
use vstd::prelude::*;

verus! {

/// The left end of the domain of a new plot: the binary64 pattern of `-3.14`.
pub const DEFAULT_LEFT: u64 = 0xC009_1EB8_51EB_851F;

/// The right end of the domain of a new plot: the binary64 pattern of `3.14`.
pub const DEFAULT_RIGHT: u64 = 0x4009_1EB8_51EB_851F;

/// The title of a new plot.
pub const DEFAULT_TITLE: &'static str = "Your function";

/// Everything the user has entered.
#[derive(Debug)]
pub struct Input {
    /// Width and height of the canvas, in pixels.
    pub canvas_size: (u32, u32),
    /// Left and right end of the domain, as binary64 patterns.
    pub domain: (u64, u64),
    /// Whether the mesh is drawn.
    pub mesh: bool,
    /// Whether the horizontal axis is labelled.
    pub x_axis: bool,
    /// Whether the vertical axis is labelled.
    pub y_axis: bool,
    /// Whether the title is drawn.
    pub title: bool,
    /// The title.
    pub title_string: String,
    /// The number of grid coordinates.
    pub quality: usize,
    /// The functions, in the order in which they are listed.
    pub functions: Vec<FnInput>,
}

impl Clone for Input {
    /// A copy with the same settings and the same functions.
    fn clone(&self) -> (r: Self)
        ensures
            r.canvas_size == self.canvas_size,
            r.domain == self.domain,
            r.mesh == self.mesh,
            r.x_axis == self.x_axis,
            r.y_axis == self.y_axis,
            r.title == self.title,
            r.title_string == self.title_string,
            r.quality == self.quality,
            r.functions.len() == self.functions.len(),
            forall|i: int|
                0 <= i < self.functions.len() ==> (#[trigger] r.functions[i])@
                    == self.functions[i]@,
    {
        let mut functions: Vec<FnInput> = Vec::new();
        let mut i: usize = 0;
        while i < self.functions.len()
            invariant
                i <= self.functions.len(),
                functions.len() == i,
                forall|k: int| 0 <= k < i ==> (#[trigger] functions[k])@ == self.functions[k]@,
            decreases self.functions.len() - i,
        {
            functions.push(self.functions[i].clone());
            i += 1;
        }
        Input {
            canvas_size: (self.canvas_size.0, self.canvas_size.1),
            domain: (self.domain.0, self.domain.1),
            mesh: self.mesh,
            x_axis: self.x_axis,
            y_axis: self.y_axis,
            title: self.title,
            title_string: self.title_string.clone(),
            quality: self.quality,
            functions,
        }
    }
}

impl Default for Input {
    /// A canvas of 360 by 360 pixels that shows `sin(x)` from `-3.14` to
    /// `3.14` at a hundred coordinates, with mesh, axes and title.
    fn default() -> (r: Self)
        ensures
            r.canvas_size == (360u32, 360u32),
            r.domain == (DEFAULT_LEFT, DEFAULT_RIGHT),
            r.mesh && r.x_axis && r.y_axis && r.title,
            r.title_string@ == DEFAULT_TITLE@,
            r.quality == 100,
            r.functions@.len() == 1,
            r.functions[0]@ == (FnInputView {
                show: true,
                string: DEFAULT_INPUT@,
                kind: FnInputKindView::Analytical { expression: DEFAULT_INPUT@ },
            }),
    {
        let functions = vec![FnInput::default()];
        Input {
            canvas_size: (360, 360),
            domain: (DEFAULT_LEFT, DEFAULT_RIGHT),
            mesh: true,
            x_axis: true,
            y_axis: true,
            title: true,
            title_string: DEFAULT_TITLE.to_owned(),
            quality: 100,
            functions,
        }
    }
}

/// One change to the dressing of the plot. A change that comes from a text
/// or range control carries what the control reports: `Some` text where it
/// reports a value, `None` where it reports anything else.
#[derive(Debug)]
pub enum Setting {
    TitleString(Option<String>),
    Mesh,
    XAxis,
    YAxis,
    Title,
    Quality(Option<String>),
    CanvasWidth(Option<String>),
    CanvasHeight(Option<String>),
}

impl Setting {
    /// Whether the change can be made: a quality, a width or a height that
    /// is reported as a value is a decimal number that fits its field.
    pub open spec fn valid(&self) -> bool {
        match self {
            Setting::Quality(Some(text)) => number(text@, usize::MAX as nat) is Some,
            Setting::CanvasWidth(Some(text)) => number(text@, u32::MAX as nat) is Some,
            Setting::CanvasHeight(Some(text)) => number(text@, u32::MAX as nat) is Some,
            _ => true,
        }
    }

    /// Whether the change can be made.
    pub fn is_valid(&self) -> (r: bool)
        ensures
            r == self.valid(),
    {
        match self {
            Setting::Quality(Some(text)) => parse_number(
                text.as_str(),
                usize::MAX as u64,
            ).is_some(),
            Setting::CanvasWidth(Some(text)) => parse_number(
                text.as_str(),
                u32::MAX as u64,
            ).is_some(),
            Setting::CanvasHeight(Some(text)) => parse_number(
                text.as_str(),
                u32::MAX as u64,
            ).is_some(),
            _ => true,
        }
    }
}

/// What `before` becomes when the change `set` is made. A switch flips its
/// flag; a title, a quality, a width or a height that is reported as a value
/// replaces the old one; everything else stays.
pub open spec fn updated(before: Input, set: Setting) -> Input {
    match set {
        Setting::TitleString(Some(text)) => Input { title_string: text, ..before },
        Setting::Title => Input { title: !before.title, ..before },
        Setting::Mesh => Input { mesh: !before.mesh, ..before },
        Setting::XAxis => Input { x_axis: !before.x_axis, ..before },
        Setting::YAxis => Input { y_axis: !before.y_axis, ..before },
        Setting::CanvasWidth(Some(text)) => Input {
            canvas_size: (number(text@, u32::MAX as nat)->Some_0 as u32, before.canvas_size.1),
            ..before
        },
        Setting::CanvasHeight(Some(text)) => Input {
            canvas_size: (before.canvas_size.0, number(text@, u32::MAX as nat)->Some_0 as u32),
            ..before
        },
        Setting::Quality(Some(text)) => Input {
            quality: number(text@, usize::MAX as nat)->Some_0 as usize,
            ..before
        },
        _ => before,
    }
}

impl Input {
    /// Makes the change `set`. The plot is to be drawn again after every
    /// change, so the answer is always `true`.
    pub fn update(&mut self, set: Setting) -> (should_render: bool)
        requires
            set.valid(),
        ensures
            should_render,
            *final(self) == updated(*old(self), set),
    {
        match set {
            Setting::TitleString(data) => {
                if let Some(s) = data {
                    self.title_string = s;
                }
            },
            Setting::Title => {
                self.title = !self.title;
            },
            Setting::Mesh => {
                self.mesh = !self.mesh;
            },
            Setting::XAxis => {
                self.x_axis = !self.x_axis;
            },
            Setting::YAxis => {
                self.y_axis = !self.y_axis;
            },
            Setting::CanvasWidth(data) => {
                if let Some(x) = data {
                    if let Some(proposal) = parse_number(x.as_str(), u32::MAX as u64) {
                        self.canvas_size = (proposal as u32, self.canvas_size.1);
                    }
                }
            },
            Setting::CanvasHeight(data) => {
                if let Some(x) = data {
                    if let Some(proposal) = parse_number(x.as_str(), u32::MAX as u64) {
                        self.canvas_size = (self.canvas_size.0, proposal as u32);
                    }
                }
            },
            Setting::Quality(data) => {
                if let Some(x) = data {
                    if let Some(proposal) = parse_number(x.as_str(), usize::MAX as u64) {
                        self.quality = proposal as usize;
                    }
                }
            },
        }
        true
    }

    /// Moves the left end of the domain to `proposal`, or to the right end
    /// where `proposal` lies beyond it.
    pub fn set_left(&mut self, proposal: u64)
        ensures
            *final(self) == (Input {
                domain: (lesser(proposal, old(self).domain.1), old(self).domain.1),
                ..*old(self)
            }),
    {
        self.domain = (minimum(proposal, self.domain.1), self.domain.1);
    }

    /// Moves the right end of the domain to `proposal`, or to the left end
    /// where `proposal` lies before it.
    pub fn set_right(&mut self, proposal: u64)
        ensures
            *final(self) == (Input {
                domain: (old(self).domain.0, greater(proposal, old(self).domain.0)),
                ..*old(self)
            }),
    {
        self.domain = (self.domain.0, maximum(proposal, self.domain.0));
    }

    /// Appends a new entry for the default function.
    pub fn add_function(&mut self)
        ensures
            final(self).functions@.len() == old(self).functions@.len() + 1,
            final(self).functions@.take(old(self).functions@.len() as int) == old(
                self,
            ).functions@,
            final(self).functions@.last()@ == (FnInputView {
                show: true,
                string: DEFAULT_INPUT@,
                kind: FnInputKindView::Analytical { expression: DEFAULT_INPUT@ },
            }),
            *final(self) == (Input { functions: final(self).functions, ..*old(self) }),
    {
        self.functions.push(FnInput::default());
        assert(self.functions@.take(old(self).functions@.len() as int) =~= old(self).functions@);
    }

    /// Shows function `index` if it is hidden and hides it if it is shown.
    pub fn toggle_function(&mut self, index: usize)
        requires
            index < old(self).functions.len(),
        ensures
            final(self).functions@ == old(self).functions@.update(
                index as int,
                FnInput {
                    show: !old(self).functions[index as int].show,
                    ..old(self).functions[index as int]
                },
            ),
            *final(self) == (Input { functions: final(self).functions, ..*old(self) }),
    {
        self.functions[index].toggle();
    }

    /// Takes `raw` as the new text of function `index`. Where neither
    /// grammar accepts it, the function falls back to the default function
    /// and its text, and the error is handed back for the caller to report.
    /// The function's visibility and all other functions stay.
    pub fn set_function<E, P>(
        &mut self,
        index: usize,
        raw: &str,
        as_expression: E,
        as_points: P,
    ) -> (r: Option<FormatError>) where
        E: Fn(&str) -> bool,
        P: Fn(&str) -> Option<Vec<(u64, u64)>>,

        requires
            index < old(self).functions.len(),
            as_expression.requires((raw,)),
            as_points.requires((raw,)),
        ensures
            *final(self) == (Input { functions: final(self).functions, ..*old(self) }),
            final(self).functions@.len() == old(self).functions@.len(),
            forall|i: int|
                0 <= i < old(self).functions@.len() && i != index ==> final(self).functions@[i]
                    == old(self).functions@[i],
            final(self).functions[index as int].show == old(self).functions[index as int].show,
            match r {
                None => {
                    &&& final(self).functions[index as int].string@ == raw@
                    &&& match final(self).functions[index as int].kind {
                        FnInputKind::Analytical { expression } => {
                            &&& expression@ == raw@
                            &&& as_expression.ensures((raw,), true)
                        },
                        FnInputKind::Points { spline } => {
                            &&& as_expression.ensures((raw,), false)
                            &&& as_points.ensures((raw,), Some(spline))
                        },
                    }
                },
                Some(error) => {
                    &&& error@ == raw@
                    &&& as_expression.ensures((raw,), false)
                    &&& as_points.ensures((raw,), None)
                    &&& final(self).functions[index as int].string@ == DEFAULT_INPUT@
                    &&& final(self).functions[index as int].kind@ == (FnInputKindView::Analytical {
                        expression: DEFAULT_INPUT@,
                    })
                },
            },
    {
        match FnInputKind::parse(raw, as_expression, as_points) {
            Ok(kind) => {
                self.functions[index].set_kind(kind).set_string(raw.to_owned());
                None
            },
            Err(error) => {
                self.functions[index].set_kind(FnInputKind::default()).set_string(
                    DEFAULT_INPUT.to_owned(),
                );
                Some(error)
            },
        }
    }
}

} // verus!
