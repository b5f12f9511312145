//! What errors about instances say. Tools that drive the compiler sort sources
//! by these words, so they are part of what it promises.

use crate::coords;
use crate::coords::Real;
use crate::instance::{BadGlyph, InstanceSpecError, PinError};
use crate::numeric;
use crate::pin::InstanceError;
use vstd::prelude::*;
use vstd::string::*;

verus! {

/// What a number looks like.
pub open spec fn shown<F: Fn(Real) -> String>(show: F, x: Real) -> Seq<char> {
    numeric::image(show, x)@
}

/// What an instance that names no position is answered.
pub open spec fn pin_message<F: Fn(Real) -> String>(show: F, e: PinError) -> Seq<char> {
    match e {
        PinError::RequiresVariableSource =>
            "--instance requires a variable source; this source has no variable axes"@,
        PinError::UnknownAxis { tag, available } => "--instance does not know axis '"@
            + coords::tag_text(tag) + "'; this source has "@ + available@,
        PinError::AxisOutOfRange { tag, pos, min, max } => "--instance puts '"@ + coords::tag_text(
            tag,
        ) + "' at "@ + shown(show, pos) + ", outside its range "@ + shown(show, min) + "..="@
            + shown(show, max),
        PinError::UnknownInstance { name, available } =>
            "--instance does not know an instance named '"@ + name@ + "'; this source has "@
                + available@,
        PinError::Location(why) => "--instance cannot resolve that location: "@ + why@,
    }
}

impl PinError {
    /// What an instance that names no position is answered. `show` writes a
    /// number.
    pub fn message<F: Fn(Real) -> String>(&self, show: &F) -> (r: String)
        requires
            numeric::is_map(*show),
        ensures
            r@ == pin_message(*show, *self),
    {
        let mut r: String = String::new();
        match self {
            PinError::RequiresVariableSource => {
                r.append(
                    "--instance requires a variable source; this source has no variable axes",
                );
            },
            PinError::UnknownAxis { tag, available } => {
                r.append("--instance does not know axis '");
                r.append(tag.text().as_str());
                r.append("'; this source has ");
                r.append(available.as_str());
            },
            PinError::AxisOutOfRange { tag, pos, min, max } => {
                r.append("--instance puts '");
                r.append(tag.text().as_str());
                r.append("' at ");
                r.append(numeric::apply(show, *pos).as_str());
                r.append(", outside its range ");
                r.append(numeric::apply(show, *min).as_str());
                r.append("..=");
                r.append(numeric::apply(show, *max).as_str());
            },
            PinError::UnknownInstance { name, available } => {
                r.append("--instance does not know an instance named '");
                r.append(name.as_str());
                r.append("'; this source has ");
                r.append(available.as_str());
            },
            PinError::Location(why) => {
                r.append("--instance cannot resolve that location: ");
                r.append(why.as_str());
            },
        }
        assert(r@ =~= pin_message(*show, *self));
        r
    }
}

/// What the spelling of an instance is answered.
pub open spec fn spelling_message(e: InstanceSpecError) -> Seq<char> {
    match e {
        InstanceSpecError::Empty =>
            "an instance must be a style name or an axis position, not empty"@,
        InstanceSpecError::NotAnAxisPosition(raw) => "'"@ + raw@ + "' is not 'axis=position'"@,
        InstanceSpecError::InvalidTag { raw, cause } => "'"@ + raw@ + "' is not an axis tag: "@
            + coords::problem_text(cause),
        InstanceSpecError::InvalidPosition { tag, value } => "'"@ + value@
            + "' is not a position on axis '"@ + coords::tag_text(tag) + "'"@,
        InstanceSpecError::DuplicateAxis(tag) => "axis '"@ + coords::tag_text(tag)
            + "' is given more than once"@,
    }
}

impl InstanceSpecError {
    /// What the spelling of an instance is answered.
    pub fn message(&self) -> (r: String)
        ensures
            r@ == spelling_message(*self),
    {
        let mut r: String = String::new();
        match self {
            InstanceSpecError::Empty => {
                r.append("an instance must be a style name or an axis position, not empty");
            },
            InstanceSpecError::NotAnAxisPosition(raw) => {
                r.append("'");
                r.append(raw.as_str());
                r.append("' is not 'axis=position'");
            },
            InstanceSpecError::InvalidTag { raw, cause } => {
                r.append("'");
                r.append(raw.as_str());
                r.append("' is not an axis tag: ");
                r.append(cause.message().as_str());
            },
            InstanceSpecError::InvalidPosition { tag, value } => {
                r.append("'");
                r.append(value.as_str());
                r.append("' is not a position on axis '");
                r.append(tag.text().as_str());
                r.append("'");
            },
            InstanceSpecError::DuplicateAxis(tag) => {
                r.append("axis '");
                r.append(tag.text().as_str());
                r.append("' is given more than once");
            },
        }
        assert(r@ =~= spelling_message(*self));
        r
    }
}

/// `said` may be what an instance that cannot be built is answered.
pub open spec fn answers<F: Fn(Real) -> String, B: Fn(&BadGlyph) -> String>(
    show: F,
    explain: B,
    e: InstanceError,
    said: String,
) -> bool {
    match e {
        InstanceError::Pin(e) => said@ == pin_message(show, e),
        InstanceError::RuleSubstituteMissing { replace, with } => said@
            == "--instance cannot apply the feature variation rule substituting '"@ + replace@
            + "': there is no glyph '"@ + with@ + "' to swap it with"@,
        InstanceError::SourceWithFeaConditionSet => said@
            == "--instance does not yet support a feature file with a conditionset"@,
        InstanceError::BadGlyph(bad) => call_ensures(explain, (&bad,), said),
        InstanceError::Delta(why) => said@ == "Unable to interpolate the instance: "@ + why@,
    }
}

impl InstanceError {
    /// What an instance that cannot be built is answered. `show` writes a
    /// number, and `explain` says what is wrong with a glyph.
    pub fn message<F: Fn(Real) -> String, B: Fn(&BadGlyph) -> String>(
        &self,
        show: &F,
        explain: &B,
    ) -> (r: String)
        requires
            numeric::is_map(*show),
            forall|bad: BadGlyph| call_requires(*explain, (&bad,)),
        ensures
            answers(*show, *explain, *self, r),
    {
        let mut r: String = String::new();
        match self {
            InstanceError::Pin(e) => e.message(show),
            InstanceError::RuleSubstituteMissing { replace, with } => {
                r.append("--instance cannot apply the feature variation rule substituting '");
                r.append(replace.as_str());
                r.append("': there is no glyph '");
                r.append(with.as_str());
                r.append("' to swap it with");
                assert(r@ =~= "--instance cannot apply the feature variation rule substituting '"@
                    + replace@ + "': there is no glyph '"@ + with@ + "' to swap it with"@);
                r
            },
            InstanceError::SourceWithFeaConditionSet => {
                "--instance does not yet support a feature file with a conditionset".to_string()
            },
            InstanceError::BadGlyph(bad) => explain(bad),
            InstanceError::Delta(why) => {
                r.append("Unable to interpolate the instance: ");
                r.append(why.as_str());
                assert(r@ =~= "Unable to interpolate the instance: "@ + why@);
                r
            },
        }
    }
}

/// Whoever asks for an instance that is nowhere is told what they asked for and
/// what there is instead.
pub proof fn law_unknown_names_are_repeated<F: Fn(Real) -> String>(
    show: F,
    tag: coords::Tag,
    name: String,
    available: String,
    why: String,
)
    ensures
        pin_message(show, PinError::RequiresVariableSource)
            == "--instance requires a variable source; this source has no variable axes"@,
        pin_message(show, PinError::UnknownAxis { tag, available })
            == "--instance does not know axis '"@ + coords::tag_text(tag) + "'; this source has "@
            + available@,
        pin_message(show, PinError::UnknownInstance { name, available })
            == "--instance does not know an instance named '"@ + name@ + "'; this source has "@
            + available@,
        pin_message(show, PinError::Location(why)) == "--instance cannot resolve that location: "@
            + why@,
{
}

/// Whoever asks for a position off an axis is told which position, and then the
/// lower and the upper end of the axis.
pub proof fn law_positions_are_told_before_ranges<F: Fn(Real) -> String>(
    show: F,
    tag: coords::Tag,
    pos: Real,
    min: Real,
    max: Real,
)
    ensures
        pin_message(show, PinError::AxisOutOfRange { tag, pos, min, max }) == "--instance puts '"@
            + coords::tag_text(tag) + "' at "@ + numeric::image(show, pos)@
            + ", outside its range "@ + numeric::image(show, min)@ + "..="@ + numeric::image(
            show,
            max,
        )@,
{
}

/// Whoever misspells an instance is told which part of it is wrong.
pub proof fn law_misspelled_parts_are_repeated(
    tag: coords::Tag,
    raw: String,
    value: String,
    cause: coords::TagProblem,
)
    ensures
        spelling_message(InstanceSpecError::Empty)
            == "an instance must be a style name or an axis position, not empty"@,
        spelling_message(InstanceSpecError::NotAnAxisPosition(raw)) == "'"@ + raw@
            + "' is not 'axis=position'"@,
        spelling_message(InstanceSpecError::InvalidTag { raw, cause }) == "'"@ + raw@
            + "' is not an axis tag: "@ + coords::problem_text(cause),
        spelling_message(InstanceSpecError::InvalidPosition { tag, value }) == "'"@ + value@
            + "' is not a position on axis '"@ + coords::tag_text(tag) + "'"@,
        spelling_message(InstanceSpecError::DuplicateAxis(tag)) == "axis '"@ + coords::tag_text(tag)
            + "' is given more than once"@,
{
}

/// An instance that cannot be built is answered with what its cause says, or
/// with the glyphs that a rule is about: the one it replaces, and the one that
/// is not there.
pub proof fn law_causes_are_passed_on<F: Fn(Real) -> String, B: Fn(&BadGlyph) -> String>(
    show: F,
    explain: B,
    e: InstanceError,
    said: String,
)
    requires
        answers(show, explain, e, said),
    ensures
        e matches InstanceError::Pin(cause) ==> said@ == pin_message(show, cause),
        e matches InstanceError::RuleSubstituteMissing { replace, with } ==> said@
            == "--instance cannot apply the feature variation rule substituting '"@ + replace@
            + "': there is no glyph '"@ + with@ + "' to swap it with"@,
        e is SourceWithFeaConditionSet ==> said@
            == "--instance does not yet support a feature file with a conditionset"@,
        e matches InstanceError::BadGlyph(bad) ==> call_ensures(explain, (&bad,), said),
        e matches InstanceError::Delta(why) ==> said@ == "Unable to interpolate the instance: "@
            + why@,
{
}

} // verus!
