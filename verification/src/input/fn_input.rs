//! One plotted function: the text it was typed as, what that text stands
//! for, and whether it is drawn.
use vstd::prelude::*;

verus! {

/// The text every new entry starts with.
pub const DEFAULT_INPUT: &'static str = "sin(x)";

/// What `FormatError::message` says.
pub const FORMAT_ERROR_MESSAGE: &'static str =
    "The input was not an anlytical function nor a collection of points.";

/// A text that is neither an analytical expression nor a list of points.
/// It carries the text that was turned down.
#[derive(Debug)]
pub struct FormatError(String);

impl View for FormatError {
    type V = Seq<char>;

    /// The text that was turned down.
    closed spec fn view(&self) -> Seq<char> {
        self.0@
    }
}

impl FormatError {
    /// The error for the text `input`.
    pub fn new(input: String) -> (r: Self)
        ensures
            r@ == input@,
    {
        FormatError(input)
    }

    /// The text that was turned down.
    pub fn input(&self) -> (r: &str)
        ensures
            r@ == self@,
    {
        self.0.as_str()
    }

    /// What went wrong, in words. The sentence is the same for every input.
    pub fn message(&self) -> (r: String)
        ensures
            r@ == FORMAT_ERROR_MESSAGE@,
    {
        FORMAT_ERROR_MESSAGE.to_owned()
    }
}

/// What a text stands for.
#[derive(Debug)]
pub enum FnInputKind {
    /// A formula in one variable, kept as the text that an expression
    /// grammar accepted.
    Analytical { expression: String },
    /// Key points `(x, y)`, each coordinate a binary64 bit pattern, in the
    /// order in which the text lists them.
    Points { spline: Vec<(u64, u64)> },
}

/// The mathematical content of a `FnInputKind`.
pub enum FnInputKindView {
    Analytical { expression: Seq<char> },
    Points { spline: Seq<(u64, u64)> },
}

impl View for FnInputKind {
    type V = FnInputKindView;

    open spec fn view(&self) -> FnInputKindView {
        match self {
            FnInputKind::Analytical { expression } => FnInputKindView::Analytical {
                expression: expression@,
            },
            FnInputKind::Points { spline } => FnInputKindView::Points { spline: spline@ },
        }
    }
}

impl Clone for FnInputKind {
    /// A copy with the same content.
    fn clone(&self) -> (r: Self)
        ensures
            r@ == self@,
    {
        match self {
            FnInputKind::Analytical { expression } => FnInputKind::Analytical {
                expression: expression.clone(),
            },
            FnInputKind::Points { spline } => {
                let mut keys: Vec<(u64, u64)> = Vec::new();
                let mut i: usize = 0;
                while i < spline.len()
                    invariant
                        i <= spline.len(),
                        keys@ == spline@.take(i as int),
                    decreases spline.len() - i,
                {
                    keys.push((spline[i].0, spline[i].1));
                    assert(keys@ =~= spline@.take(i + 1));
                    i += 1;
                }
                assert(spline@.take(spline.len() as int) =~= spline@);
                FnInputKind::Points { spline: keys }
            },
        }
    }
}

impl Default for FnInputKind {
    /// The analytical function `sin(x)`.
    fn default() -> (r: Self)
        ensures
            r@ == (FnInputKindView::Analytical { expression: DEFAULT_INPUT@ }),
    {
        FnInputKind::Analytical { expression: DEFAULT_INPUT.to_owned() }
    }
}

/// What a text stands for, given what the two grammars made of it. The
/// expression grammar is asked first and wins; the point list counts only
/// where the text is no expression; a text that is neither is turned down
/// and handed back.
pub open spec fn classification(
    raw: Seq<char>,
    expression: bool,
    points: Option<Seq<(u64, u64)>>,
) -> Result<FnInputKindView, Seq<char>> {
    if expression {
        Ok(FnInputKindView::Analytical { expression: raw })
    } else {
        match points {
            Some(keys) => Ok(FnInputKindView::Points { spline: keys }),
            None => Err(raw),
        }
    }
}

/// The mathematical content of an optional list of key points.
pub open spec fn points_view(points: Option<Vec<(u64, u64)>>) -> Option<Seq<(u64, u64)>> {
    match points {
        Some(keys) => Some(keys@),
        None => None,
    }
}

/// The mathematical content of the outcome of a classification.
pub open spec fn outcome_view(outcome: Result<FnInputKind, FormatError>) -> Result<
    FnInputKindView,
    Seq<char>,
> {
    match outcome {
        Ok(kind) => Ok(kind@),
        Err(error) => Err(error@),
    }
}

impl FnInputKind {
    /// Decides what `raw` stands for from what the two grammars made of it:
    /// `expression` says whether the expression grammar accepted `raw`,
    /// `points` holds the key points that the point-list grammar read from
    /// it, if it read any.
    pub fn classify(raw: &str, expression: bool, points: Option<Vec<(u64, u64)>>) -> (r: Result<
        FnInputKind,
        FormatError,
    >)
        ensures
            outcome_view(r) == classification(raw@, expression, points_view(points)),
            r matches Ok(FnInputKind::Points { spline }) ==> points == Some(spline),
    {
        if expression {
            Ok(FnInputKind::Analytical { expression: raw.to_owned() })
        } else {
            match points {
                Some(spline) => Ok(FnInputKind::Points { spline }),
                None => Err(FormatError(raw.to_owned())),
            }
        }
    }

    /// Reads `raw` with the two grammars handed in. `as_expression` is asked
    /// first; only where it turns `raw` down is `as_points` asked. The
    /// result is the classification of what they answered.
    pub fn parse<E, P>(raw: &str, as_expression: E, as_points: P) -> (r: Result<
        FnInputKind,
        FormatError,
    >) where E: Fn(&str) -> bool, P: Fn(&str) -> Option<Vec<(u64, u64)>>
        requires
            as_expression.requires((raw,)),
            as_points.requires((raw,)),
        ensures
            match r {
                Ok(FnInputKind::Analytical { expression }) => {
                    &&& expression@ == raw@
                    &&& as_expression.ensures((raw,), true)
                },
                Ok(FnInputKind::Points { spline }) => {
                    &&& as_expression.ensures((raw,), false)
                    &&& as_points.ensures((raw,), Some(spline))
                },
                Err(error) => {
                    &&& error@ == raw@
                    &&& as_expression.ensures((raw,), false)
                    &&& as_points.ensures((raw,), None)
                },
            },
    {
        if as_expression(raw) {
            FnInputKind::classify(raw, true, None)
        } else {
            let points = as_points(raw);
            FnInputKind::classify(raw, false, points)
        }
    }
}

/// One entry of the plot.
#[derive(Debug)]
pub struct FnInput {
    /// Whether the function is drawn.
    pub show: bool,
    /// The text as it was typed.
    pub string: String,
    /// What the text stands for.
    pub kind: FnInputKind,
}

/// The mathematical content of a `FnInput`.
pub struct FnInputView {
    pub show: bool,
    pub string: Seq<char>,
    pub kind: FnInputKindView,
}

impl View for FnInput {
    type V = FnInputView;

    open spec fn view(&self) -> FnInputView {
        FnInputView { show: self.show, string: self.string@, kind: self.kind@ }
    }
}

impl Clone for FnInput {
    /// A copy with the same content.
    fn clone(&self) -> (r: Self)
        ensures
            r@ == self@,
    {
        FnInput { show: self.show, string: self.string.clone(), kind: self.kind.clone() }
    }
}

impl Default for FnInput {
    /// A shown entry for `sin(x)`.
    fn default() -> (r: Self)
        ensures
            r@ == (FnInputView {
                show: true,
                string: DEFAULT_INPUT@,
                kind: FnInputKindView::Analytical { expression: DEFAULT_INPUT@ },
            }),
    {
        FnInput { string: DEFAULT_INPUT.to_owned(), show: true, kind: FnInputKind::default() }
    }
}

impl FnInput {
    /// Whether the function is drawn.
    pub fn show(&self) -> (r: bool)
        ensures
            r == self.show,
    {
        self.show
    }

    /// Shows a hidden entry and hides a shown one. Text and kind stay.
    pub fn toggle(&mut self) -> (r: &mut Self)
        ensures
            r.show == !old(self).show,
            r.string == old(self).string,
            r.kind == old(self).kind,
            *final(self) == *final(r),
    {
        self.show = !self.show;
        self
    }

    /// What the text stands for.
    pub fn kind(&self) -> (r: &FnInputKind)
        ensures
            *r == self.kind,
    {
        &self.kind
    }

    /// Puts `kind` in place of the entry's kind. Text and visibility stay.
    pub fn set_kind(&mut self, kind: FnInputKind) -> (r: &mut Self)
        ensures
            r.kind == kind,
            r.show == old(self).show,
            r.string == old(self).string,
            *final(self) == *final(r),
    {
        self.kind = kind;
        self
    }

    /// Puts `s` in place of the entry's text. Kind and visibility stay.
    pub fn set_string(&mut self, s: String) -> (r: &mut Self)
        ensures
            r.string == s,
            r.show == old(self).show,
            r.kind == old(self).kind,
            *final(self) == *final(r),
    {
        self.string = s;
        self
    }

    /// Takes `raw` as the entry's new text, if one of the two grammars
    /// accepts it: text and kind are then replaced together. A text that
    /// both turn down is handed back as an error and the entry stays as it
    /// was. Visibility stays in either case.
    pub fn edit<E, P>(&mut self, raw: &str, as_expression: E, as_points: P) -> (r: Result<
        (),
        FormatError,
    >) where E: Fn(&str) -> bool, P: Fn(&str) -> Option<Vec<(u64, u64)>>
        requires
            as_expression.requires((raw,)),
            as_points.requires((raw,)),
        ensures
            final(self).show == old(self).show,
            match r {
                Ok(()) => {
                    &&& final(self).string@ == raw@
                    &&& match final(self).kind {
                        FnInputKind::Analytical { expression } => {
                            &&& expression@ == raw@
                            &&& as_expression.ensures((raw,), true)
                        },
                        FnInputKind::Points { spline } => {
                            &&& as_expression.ensures((raw,), false)
                            &&& as_points.ensures((raw,), Some(spline))
                        },
                    }
                },
                Err(error) => {
                    &&& error@ == raw@
                    &&& *final(self) == *old(self)
                    &&& as_expression.ensures((raw,), false)
                    &&& as_points.ensures((raw,), None)
                },
            },
    {
        match FnInputKind::parse(raw, as_expression, as_points) {
            Ok(kind) => {
                self.kind = kind;
                self.string = raw.to_owned();
                Ok(())
            },
            Err(error) => Err(error),
        }
    }
}

} // verus!
