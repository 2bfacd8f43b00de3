use vstd::prelude::*;

use crate::entity::opt_view;
use crate::text::owned;

verus! {

/// What the validator reports on one entity text.
#[derive(Debug, Clone)]
pub struct ValidationResult {
    pub valid: bool,
    pub errors: Vec<ValidationError>,
    pub warnings: Vec<ValidationWarning>,
}

/// A problem that blocks an edit.
#[derive(Debug, Clone)]
pub struct ValidationError {
    /// A code such as `INVALID_JSON` or `MISSING_ID`.
    pub code: String,
    pub message: String,
    /// Where in the value, such as `$`.
    pub path: Option<String>,
    /// The line of the text, where known.
    pub line: Option<usize>,
}

/// A remark that does not block an edit.
#[derive(Debug, Clone)]
pub struct ValidationWarning {
    pub code: String,
    pub message: String,
    pub path: Option<String>,
}

pub struct ErrorModel {
    pub code: Seq<char>,
    pub message: Seq<char>,
    pub path: Option<Seq<char>>,
    pub line: Option<usize>,
}

pub struct WarningModel {
    pub code: Seq<char>,
    pub message: Seq<char>,
    pub path: Option<Seq<char>>,
}

pub struct ValidationModel {
    pub valid: bool,
    pub errors: Seq<ErrorModel>,
    pub warnings: Seq<WarningModel>,
}

impl View for ValidationError {
    type V = ErrorModel;

    open spec fn view(&self) -> ErrorModel {
        ErrorModel { code: self.code@, message: self.message@, path: opt_view(self.path), line: self.line }
    }
}

impl View for ValidationWarning {
    type V = WarningModel;

    open spec fn view(&self) -> WarningModel {
        WarningModel { code: self.code@, message: self.message@, path: opt_view(self.path) }
    }
}

impl View for ValidationResult {
    type V = ValidationModel;

    open spec fn view(&self) -> ValidationModel {
        ValidationModel {
            valid: self.valid,
            errors: self.errors@.map_values(|e: ValidationError| e@),
            warnings: self.warnings@.map_values(|w: ValidationWarning| w@),
        }
    }
}

/// An error without path or line.
pub open spec fn plain_error(code: Seq<char>, message: Seq<char>) -> ErrorModel {
    ErrorModel { code, message, path: None, line: None }
}

/// A warning without path.
pub open spec fn plain_warning(code: Seq<char>, message: Seq<char>) -> WarningModel {
    WarningModel { code, message, path: None }
}

impl ValidationResult {
    /// A valid result with nothing to report.
    pub fn ok() -> (r: ValidationResult)
        ensures
            r@.valid,
            r@.errors.len() == 0,
            r@.warnings.len() == 0,
    {
        let r = ValidationResult { valid: true, errors: Vec::new(), warnings: Vec::new() };
        assert(r@.errors =~= Seq::<ErrorModel>::empty());
        assert(r@.warnings =~= Seq::<WarningModel>::empty());
        r
    }

    /// An invalid result holding one error.
    pub fn with_error(code: &str, message: &str) -> (r: ValidationResult)
        ensures
            !r@.valid,
            r@.errors == seq![plain_error(code@, message@)],
            r@.warnings.len() == 0,
    {
        let r = ValidationResult {
            valid: false,
            errors: vec![ValidationError::new(code, message)],
            warnings: Vec::new(),
        };
        assert(r@.errors =~= seq![plain_error(code@, message@)]);
        assert(r@.warnings =~= Seq::<WarningModel>::empty());
        r
    }

    /// Records an error, which makes the result invalid.
    pub fn add_error(&mut self, code: &str, message: &str)
        ensures
            !final(self)@.valid,
            final(self)@.errors == old(self)@.errors.push(plain_error(code@, message@)),
            final(self)@.warnings == old(self)@.warnings,
    {
        self.valid = false;
        self.errors.push(ValidationError::new(code, message));
        assert(self@.errors =~= old(self)@.errors.push(plain_error(code@, message@)));
    }

    /// Records an error at `path`, which makes the result invalid.
    pub fn add_error_with_path(&mut self, code: &str, message: &str, path: &str)
        ensures
            !final(self)@.valid,
            final(self)@.errors == old(self)@.errors.push(
                ErrorModel { code: code@, message: message@, path: Some(path@), line: None },
            ),
            final(self)@.warnings == old(self)@.warnings,
    {
        self.valid = false;
        self.errors.push(ValidationError::new(code, message).with_path(path));
        assert(self@.errors =~= old(self)@.errors.push(
            ErrorModel { code: code@, message: message@, path: Some(path@), line: None },
        ));
    }

    /// Records a warning; validity is unchanged.
    pub fn add_warning(&mut self, code: &str, message: &str)
        ensures
            final(self)@.valid == old(self)@.valid,
            final(self)@.errors == old(self)@.errors,
            final(self)@.warnings == old(self)@.warnings.push(plain_warning(code@, message@)),
    {
        self.warnings.push(ValidationWarning { code: owned(code), message: owned(message), path: None });
        assert(self@.warnings =~= old(self)@.warnings.push(plain_warning(code@, message@)));
    }

    /// Appends what `other` reports; the result stays valid only where both were.
    pub fn merge(&mut self, other: ValidationResult)
        ensures
            final(self)@.valid == (old(self)@.valid && other@.valid),
            final(self)@.errors == old(self)@.errors + other@.errors,
            final(self)@.warnings == old(self)@.warnings + other@.warnings,
    {
        if !other.valid {
            self.valid = false;
        }
        let ValidationResult { valid: _, errors, warnings } = other;
        let mut errors = errors;
        let mut warnings = warnings;
        self.errors.append(&mut errors);
        self.warnings.append(&mut warnings);
        assert(self@.errors =~= old(self)@.errors + other@.errors);
        assert(self@.warnings =~= old(self)@.warnings + other@.warnings);
    }
}

impl ValidationError {
    /// An error without path or line.
    pub fn new(code: &str, message: &str) -> (r: ValidationError)
        ensures
            r@ == plain_error(code@, message@),
    {
        ValidationError { code: owned(code), message: owned(message), path: None, line: None }
    }

    /// The same error at `path`.
    pub fn with_path(self, path: &str) -> (r: ValidationError)
        ensures
            r@ == (ErrorModel { path: Some(path@), ..self@ }),
    {
        let mut r = self;
        r.path = Some(owned(path));
        r
    }

    /// The same error on line `line`.
    pub fn with_line(self, line: usize) -> (r: ValidationError)
        ensures
            r@ == (ErrorModel { line: Some(line), ..self@ }),
    {
        let mut r = self;
        r.line = Some(line);
        r
    }
}

} // verus!
