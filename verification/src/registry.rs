//! Named implementations, selected at runtime.
//!
//! An unrecognised implementation name is a hard error listing the valid
//! ones, never a silent fallback to the default: "it ran but quietly used
//! something else" is precisely the failure that wastes an evening.
use crate::detect::NaiveDetector;
use crate::magnitude::MagnitudeChoice;
use crate::pipeline::Pipeline;
use crate::slice::NaiveSlicer;
use crate::text::{padded, push_padded, push_str, str_eq};
use crate::validate::CrcOnlyValidator;
use vstd::prelude::*;

verus! {

/// A full selection of implementations, one per stage.
#[derive(Clone, Debug, PartialEq, Eq)]
pub struct ImplSet {
    pub magnitude: String,
    pub detector: String,
    pub slicer: String,
    pub validator: String,
}

/// Whether `set` names the baseline implementations.
pub open spec fn is_baseline(set: ImplSet) -> bool {
    &&& set.magnitude@ == "naive"@
    &&& set.detector@ == "naive"@
    &&& set.slicer@ == "naive"@
    &&& set.validator@ == "crc-only"@
}

impl ImplSet {
    /// The control. Simple, explainable, and deliberately not tuned.
    pub fn baseline() -> (set: ImplSet)
        ensures
            is_baseline(set),
    {
        ImplSet {
            magnitude: "naive".to_owned(),
            detector: "naive".to_owned(),
            slicer: "naive".to_owned(),
            validator: "crc-only".to_owned(),
        }
    }

    /// Resolve a named preset.
    pub fn preset(name: &str) -> (set: Option<ImplSet>)
        ensures
            set is Some <==> name@ == "baseline"@,
            set matches Some(s) ==> is_baseline(s),
    {
        if str_eq(name, "baseline") {
            Some(Self::baseline())
        } else {
            None
        }
    }

    /// The names `preset` resolves.
    pub fn preset_names() -> (names: Vec<&'static str>)
        ensures
            names@.len() == 1,
            names@[0]@ == "baseline"@,
    {
        let mut names: Vec<&'static str> = Vec::new();
        names.push("baseline");
        names
    }

    /// `mag=.. detect=.. slice=.. validate=..`, for logs and result provenance.
    pub fn to_string(&self) -> (s: String)
        ensures
            s@ == "mag="@ + self.magnitude@ + " detect="@ + self.detector@ + " slice="@
                + self.slicer@ + " validate="@ + self.validator@,
    {
        let mut s = String::new();
        push_str(&mut s, "mag=");
        push_str(&mut s, self.magnitude.as_str());
        push_str(&mut s, " detect=");
        push_str(&mut s, self.detector.as_str());
        push_str(&mut s, " slice=");
        push_str(&mut s, self.slicer.as_str());
        push_str(&mut s, " validate=");
        push_str(&mut s, self.validator.as_str());
        s
    }
}

/// A name no implementation of a stage answers to.
#[derive(Clone, Debug)]
pub enum RegistryError {
    Unknown { stage: &'static str, name: String, available: String },
}

impl RegistryError {
    pub open spec fn message_spec(self) -> Seq<char> {
        match self {
            RegistryError::Unknown { stage, name, available } => "unknown "@ + stage@
                + " implementation '"@ + name@ + "'. Available: "@ + available@,
        }
    }

    /// `unknown {stage} implementation '{name}'. Available: {available}`.
    pub fn message(&self) -> (s: String)
        ensures
            s@ == self.message_spec(),
    {
        match self {
            RegistryError::Unknown { stage, name, available } => {
                let mut s = String::new();
                push_str(&mut s, "unknown ");
                push_str(&mut s, stage);
                push_str(&mut s, " implementation '");
                push_str(&mut s, name.as_str());
                push_str(&mut s, "'. Available: ");
                push_str(&mut s, available.as_str());
                s
            },
        }
    }
}

/// The names of a table, joined by `", "`.
pub open spec fn joined_names(table: Seq<(&'static str, &'static str)>) -> Seq<char>
    decreases table.len(),
{
    if table.len() == 0 {
        Seq::empty()
    } else if table.len() == 1 {
        table[0].0@
    } else {
        joined_names(table.drop_last()) + ", "@ + table.last().0@
    }
}

/// The error for `name`, listing every name in `available`.
pub fn unknown(stage: &'static str, name: &str, available: &[(&'static str, &'static str)]) -> (e:
    RegistryError)
    ensures
        e matches RegistryError::Unknown { stage: st, name: n, available: av } && st == stage
            && n@ == name@ && av@ == joined_names(available@),
{
    let mut list = String::new();
    let mut i: usize = 0;
    while i < available.len()
        invariant
            i <= available@.len(),
            list@ == joined_names(available@.take(i as int)),
        decreases available@.len() - i,
    {
        if i > 0 {
            push_str(&mut list, ", ");
        }
        push_str(&mut list, available[i].0);
        proof {
            let t = available@.take(i + 1);
            assert(t.drop_last() =~= available@.take(i as int));
            if i == 0 {
                assert(available@.take(0) =~= Seq::<(&'static str, &'static str)>::empty());
            }
        }
        i = i + 1;
    }
    proof {
        assert(available@.take(available@.len() as int) =~= available@);
    }
    RegistryError::Unknown { stage, name: name.to_owned(), available: list }
}

/// The magnitude table: each registered name with its one-line description.
pub open spec fn magnitude_table() -> Seq<(&'static str, &'static str)> {
    seq![("naive", "sqrt(i^2+q^2) in f32; the correctness reference")]
}

/// Registered magnitude implementations, with their one-line descriptions.
pub fn magnitude_names() -> (t: Vec<(&'static str, &'static str)>)
    ensures
        t@ == magnitude_table(),
        t@[0].0@ == "naive"@,
{
    let mut t: Vec<(&'static str, &'static str)> = Vec::new();
    t.push(("naive", "sqrt(i^2+q^2) in f32; the correctness reference"));
    proof {
        assert(t@ =~= magnitude_table());
    }
    t
}

/// The detector table: each registered name with its one-line description.
pub open spec fn detector_table() -> Seq<(&'static str, &'static str)> {
    seq![("naive", "half-microsecond slot means; min(pulse) > 2x max(silence), absolute threshold")]
}

/// Registered preamble detectors.
pub fn detector_names() -> (t: Vec<(&'static str, &'static str)>)
    ensures
        t@ == detector_table(),
        t@[0].0@ == "naive"@,
{
    let mut t: Vec<(&'static str, &'static str)> = Vec::new();
    t.push(("naive", "half-microsecond slot means; min(pulse) > 2x max(silence), absolute threshold"));
    proof {
        assert(t@ =~= detector_table());
    }
    t
}

/// The slicer table: each registered name with its one-line description.
pub open spec fn slicer_table() -> Seq<(&'static str, &'static str)> {
    seq![("naive", "one sample per half-bit, compared directly; reports no confidence")]
}

/// Registered bit slicers.
pub fn slicer_names() -> (t: Vec<(&'static str, &'static str)>)
    ensures
        t@ == slicer_table(),
        t@[0].0@ == "naive"@,
{
    let mut t: Vec<(&'static str, &'static str)> = Vec::new();
    t.push(("naive", "one sample per half-bit, compared directly; reports no confidence"));
    proof {
        assert(t@ =~= slicer_table());
    }
    t
}

/// The validator table: each registered name with its one-line description.
pub open spec fn validator_table() -> Seq<(&'static str, &'static str)> {
    seq![("crc-only", "accept only an exact CRC match; cannot invent aircraft")]
}

/// Registered frame validators.
pub fn validator_names() -> (t: Vec<(&'static str, &'static str)>)
    ensures
        t@ == validator_table(),
        t@[0].0@ == "crc-only"@,
{
    let mut t: Vec<(&'static str, &'static str)> = Vec::new();
    t.push(("crc-only", "accept only an exact CRC match; cannot invent aircraft"));
    proof {
        assert(t@ =~= validator_table());
    }
    t
}

/// The error an unknown name of a one-entry stage gets.
pub open spec fn unknown_one(e: RegistryError, stage: Seq<char>, name: Seq<char>, only: Seq<char>) -> bool {
    e matches RegistryError::Unknown { stage: st, name: n, available: av } && st@ == stage && n@
        == name && av@ == only
}

pub fn magnitude(name: &str) -> (r: Result<MagnitudeChoice, RegistryError>)
    ensures
        r is Ok <==> name@ == "naive"@,
        r matches Ok(m) ==> m == MagnitudeChoice::Naive,
        r matches Err(e) ==> unknown_one(e, "magnitude"@, name@, "naive"@),
{
    if str_eq(name, "naive") {
        Ok(MagnitudeChoice::Naive)
    } else {
        let t = magnitude_names();
        proof {
            assert(joined_names(t@) == t@[0].0@);
        }
        Err(unknown("magnitude", name, t.as_slice()))
    }
}

pub fn detector(name: &str, sample_rate: u32) -> (r: Result<NaiveDetector, RegistryError>)
    ensures
        r is Ok <==> name@ == "naive"@,
        r matches Ok(d) ==> d.rate() == sample_rate,
        r matches Err(e) ==> unknown_one(e, "detector"@, name@, "naive"@),
{
    if str_eq(name, "naive") {
        Ok(NaiveDetector::new(sample_rate))
    } else {
        let t = detector_names();
        proof {
            assert(joined_names(t@) == t@[0].0@);
        }
        Err(unknown("detector", name, t.as_slice()))
    }
}

pub fn slicer(name: &str, sample_rate: u32) -> (r: Result<NaiveSlicer, RegistryError>)
    ensures
        r is Ok <==> name@ == "naive"@,
        r matches Ok(s) ==> s.rate() == sample_rate,
        r matches Err(e) ==> unknown_one(e, "slicer"@, name@, "naive"@),
{
    if str_eq(name, "naive") {
        Ok(NaiveSlicer::new(sample_rate))
    } else {
        let t = slicer_names();
        proof {
            assert(joined_names(t@) == t@[0].0@);
        }
        Err(unknown("slicer", name, t.as_slice()))
    }
}

pub fn validator(name: &str) -> (r: Result<CrcOnlyValidator, RegistryError>)
    ensures
        r is Ok <==> name@ == "crc-only"@,
        r matches Err(e) ==> unknown_one(e, "validator"@, name@, "crc-only"@),
{
    if str_eq(name, "crc-only") {
        Ok(CrcOnlyValidator)
    } else {
        let t = validator_names();
        proof {
            assert(joined_names(t@) == t@[0].0@);
        }
        Err(unknown("validator", name, t.as_slice()))
    }
}

/// Check every stage name of a selection, in stage order; the first unknown
/// name decides the error.
pub fn check(set: &ImplSet) -> (r: Result<(), RegistryError>)
    ensures
        r is Ok <==> is_baseline(*set),
        r matches Err(e) ==> (if set.magnitude@ != "naive"@ {
            unknown_one(e, "magnitude"@, set.magnitude@, "naive"@)
        } else if set.detector@ != "naive"@ {
            unknown_one(e, "detector"@, set.detector@, "naive"@)
        } else if set.slicer@ != "naive"@ {
            unknown_one(e, "slicer"@, set.slicer@, "naive"@)
        } else {
            unknown_one(e, "validator"@, set.validator@, "crc-only"@)
        }),
{
    if let Err(e) = magnitude(set.magnitude.as_str()) {
        return Err(e);
    }
    if let Err(e) = detector(set.detector.as_str(), 2_400_000) {
        return Err(e);
    }
    if let Err(e) = slicer(set.slicer.as_str(), 2_400_000) {
        return Err(e);
    }
    if let Err(e) = validator(set.validator.as_str()) {
        return Err(e);
    }
    Ok(())
}

/// Build a pipeline from a named selection. The first stage whose name is
/// unknown decides the error.
pub fn build(set: &ImplSet, sample_rate: u32) -> (r: Result<Pipeline, RegistryError>)
    ensures
        r is Ok <==> is_baseline(*set),
        r matches Ok(p) ==> p.wf() && p.rate() == sample_rate && p.stats_spec().is_zero()
            && p.retained() == 0 && p.accept_floor() == 0 && p.in_stream()
            && p.fed() == Seq::<u16>::empty() && p.emitted().len() == 0,
        r matches Err(e) ==> (if set.magnitude@ != "naive"@ {
            unknown_one(e, "magnitude"@, set.magnitude@, "naive"@)
        } else if set.detector@ != "naive"@ {
            unknown_one(e, "detector"@, set.detector@, "naive"@)
        } else if set.slicer@ != "naive"@ {
            unknown_one(e, "slicer"@, set.slicer@, "naive"@)
        } else {
            unknown_one(e, "validator"@, set.validator@, "crc-only"@)
        }),
{
    let m = match magnitude(set.magnitude.as_str()) {
        Ok(m) => m,
        Err(e) => return Err(e),
    };
    let d = match detector(set.detector.as_str(), sample_rate) {
        Ok(d) => d,
        Err(e) => return Err(e),
    };
    let s = match slicer(set.slicer.as_str(), sample_rate) {
        Ok(s) => s,
        Err(e) => return Err(e),
    };
    let v = match validator(set.validator.as_str()) {
        Ok(v) => v,
        Err(e) => return Err(e),
    };
    Ok(Pipeline::new(m, d, s, v, sample_rate))
}

/// One stage's block of `describe_all`.
pub open spec fn stage_block(title: Seq<char>, table: Seq<(&'static str, &'static str)>) -> Seq<char>
    decreases table.len(),
{
    if table.len() == 0 {
        title + ":\n"@
    } else {
        stage_block(title, table.drop_last()) + "  "@ + padded(table.last().0@, 16) + " "@
            + table.last().1@ + "\n"@
    }
}

/// Appends one stage's title and its table, a line per implementation.
fn push_stage(s: &mut String, title: &str, table: &[(&'static str, &'static str)])
    ensures
        final(s)@ == old(s)@ + stage_block(title@, table@),
{
    push_str(s, title);
    push_str(s, ":\n");
    let mut i: usize = 0;
    while i < table.len()
        invariant
            i <= table@.len(),
            s@ == old(s)@ + stage_block(title@, table@.take(i as int)),
        decreases table@.len() - i,
    {
        let (name, description) = table[i];
        push_str(s, "  ");
        push_padded(s, name, 16);
        push_str(s, " ");
        push_str(s, description);
        push_str(s, "\n");
        proof {
            assert(table@.take(i + 1).drop_last() =~= table@.take(i as int));
        }
        i = i + 1;
    }
    proof {
        assert(table@.take(table@.len() as int) =~= table@);
    }
}

/// Everything registered, for `--list-impls`.
pub fn describe_all() -> (s: String)
    ensures
        s@ == stage_block("magnitude (--mag)"@, magnitude_table()) + stage_block(
            "detector  (--detect)"@,
            detector_table(),
        ) + stage_block("slicer    (--slice)"@, slicer_table()) + stage_block(
            "validator (--validate)"@,
            validator_table(),
        ) + "presets   (--impl-set):\n"@ + "  "@ + "baseline"@ + "\n"@,
{
    let mut s = String::new();
    let t = magnitude_names();
    push_stage(&mut s, "magnitude (--mag)", t.as_slice());
    let t = detector_names();
    push_stage(&mut s, "detector  (--detect)", t.as_slice());
    let t = slicer_names();
    push_stage(&mut s, "slicer    (--slice)", t.as_slice());
    let t = validator_names();
    push_stage(&mut s, "validator (--validate)", t.as_slice());
    push_str(&mut s, "presets   (--impl-set):\n");
    let names = ImplSet::preset_names();
    let mut i: usize = 0;
    while i < names.len()
        invariant
            names@.len() == 1,
            names@[0]@ == "baseline"@,
            i <= 1,
            i == 0 ==> s@ == stage_block("magnitude (--mag)"@, magnitude_table()) + stage_block(
                "detector  (--detect)"@,
                detector_table(),
            ) + stage_block("slicer    (--slice)"@, slicer_table()) + stage_block(
                "validator (--validate)"@,
                validator_table(),
            ) + "presets   (--impl-set):\n"@,
            i == 1 ==> s@ == stage_block("magnitude (--mag)"@, magnitude_table()) + stage_block(
                "detector  (--detect)"@,
                detector_table(),
            ) + stage_block("slicer    (--slice)"@, slicer_table()) + stage_block(
                "validator (--validate)"@,
                validator_table(),
            ) + "presets   (--impl-set):\n"@ + "  "@ + "baseline"@ + "\n"@,
        decreases names@.len() - i,
    {
        push_str(&mut s, "  ");
        push_str(&mut s, names[i]);
        push_str(&mut s, "\n");
        i = i + 1;
    }
    s
}

} // verus!
