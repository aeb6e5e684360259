//! The decisions around reading inputs and naming outputs: which kind of
//! instance an input file holds, how the command line's time limits combine,
//! where the final JSON goes, and how elapsed time is shown in log lines.
//! Reading and writing files is the caller's.
use vstd::prelude::*;
use vstd::string::StringExecFns;
use crate::util::svg_exporter::OUTPUT_DIR;

verus! {

#[verifier::external_type_specification]
#[verifier::external_body]
pub struct ExJsonError(serde_json::Error);

/// What `serde_json` makes of `text` when it parses it as a `Value`: `None`
/// when it is not valid JSON; `Some(None)` when it is valid but not an object;
/// `Some(Some(keys))` for an object with these top-level keys.
pub uninterp spec fn json_object_keys(text: Seq<char>) -> Option<Option<Seq<Seq<char>>>>;

pub open spec fn views(v: Seq<String>) -> Seq<Seq<char>> {
    v.map_values(|s: String| s@)
}

/// `serde_json::from_str::<serde_json::Value>`, then `Value::as_object` and
/// the object's keys. The contract names what it returns, as a function of
/// the text alone: the error when the text is not JSON, `None` for a value
/// that is not an object, the keys of an object otherwise.
#[verifier::external_body]
fn parse_json_object_keys(text: &str) -> (r: Result<Option<Vec<String>>, serde_json::Error>)
    ensures
        r is Err <==> json_object_keys(text@) is None,
        r matches Ok(o) ==> match o {
            None => json_object_keys(text@) == Some(None::<Seq<Seq<char>>>),
            Some(keys) => json_object_keys(text@) == Some(Some(views(keys@))),
        },
{
    match serde_json::from_str::<serde_json::Value>(text) {
        Ok(value) => Ok(value.as_object().map(|m| m.keys().cloned().collect())),
        Err(e) => Err(e),
    }
}

/// The kind of instance an input file holds.
#[derive(Debug, Clone, Copy, PartialEq, Eq, Structural)]
pub enum InputKind {
    /// Strip packing (an instance, or an instance with a solution).
    Spp,
    /// Bin packing.
    Bpp,
}

/// Why an input file was not recognised.
#[derive(Debug, Clone, Copy, PartialEq, Eq, Structural)]
pub enum InputError {
    /// The input file is not valid JSON.
    InvalidJson,
    /// The input JSON must be an object at the top level.
    NotAnObject,
    /// The input JSON has neither `strip_height` nor `bins`.
    UnknownShape,
}

/// The kind told by the top-level keys: `bins` means bin packing;
/// otherwise `strip_height` means strip packing.
pub open spec fn spec_classify_keys(keys: Seq<Seq<char>>) -> Result<InputKind, InputError> {
    if keys.contains("bins"@) {
        Ok(InputKind::Bpp)
    } else if keys.contains("strip_height"@) {
        Ok(InputKind::Spp)
    } else {
        Err(InputError::UnknownShape)
    }
}

/// An object with a top-level `bins` key is a bin-packing input, whatever
/// other keys it has; without `bins`, `strip_height` makes it strip packing;
/// with neither it is refused.
pub proof fn lemma_classify_by_keys(keys: Seq<Seq<char>>)
    ensures
        keys.contains("bins"@) ==> spec_classify_keys(keys) == Ok::<InputKind, InputError>(
            InputKind::Bpp,
        ),
        !keys.contains("bins"@) && keys.contains("strip_height"@) ==> spec_classify_keys(keys)
            == Ok::<InputKind, InputError>(InputKind::Spp),
        !keys.contains("bins"@) && !keys.contains("strip_height"@) ==> spec_classify_keys(keys)
            == Err::<InputKind, InputError>(InputError::UnknownShape),
        forall|extra: Seq<char>|
            keys.contains("bins"@) ==> #[trigger] spec_classify_keys(keys.push(extra)) == Ok::<
                InputKind,
                InputError,
            >(InputKind::Bpp),
{
    assert forall|extra: Seq<char>| keys.contains("bins"@) implies #[trigger] spec_classify_keys(
        keys.push(extra),
    ) == Ok::<InputKind, InputError>(InputKind::Bpp) by {
        let i = choose|i: int| 0 <= i < keys.len() && keys[i] == "bins"@;
        assert(keys.push(extra)[i] == "bins"@);
    }
}

/// The kind of an input, as `read_input` tells it from the text.
pub open spec fn spec_sniff_input(text: Seq<char>) -> Result<InputKind, InputError> {
    match json_object_keys(text) {
        None => Err(InputError::InvalidJson),
        Some(None) => Err(InputError::NotAnObject),
        Some(Some(keys)) => spec_classify_keys(keys),
    }
}

fn holds_key(keys: &Vec<String>, key: &str) -> (b: bool)
    ensures
        b == views(keys@).contains(key@),
        b == exists|i: int| 0 <= i < keys.len() && #[trigger] keys@[i]@ == key@,
{
    let wanted = String::from_str(key);
    let mut i: usize = 0;
    while i < keys.len()
        invariant
            i <= keys.len(),
            wanted@ == key@,
            forall|j: int| 0 <= j < i ==> #[trigger] keys@[j]@ != key@,
        decreases keys.len() - i,
    {
        if keys[i] == wanted {
            assert(views(keys@)[i as int] == key@);
            assert(keys@[i as int]@ == key@);
            return true;
        }
        i = i + 1;
    }
    assert forall|j: int| 0 <= j < views(keys@).len() implies #[trigger] views(keys@)[j] != key@ by {
        assert(keys@[j]@ != key@);
    }
    false
}

/// The kind of instance whose JSON object has these top-level keys.
pub fn classify_input_keys(keys: &Vec<String>) -> (r: Result<InputKind, InputError>)
    ensures
        r == spec_classify_keys(views(keys@)),
        (exists|i: int| 0 <= i < keys.len() && #[trigger] keys@[i]@ == "bins"@) ==> r == Ok::<
            InputKind,
            InputError,
        >(InputKind::Bpp),
        (forall|i: int| 0 <= i < keys.len() ==> #[trigger] keys@[i]@ != "bins"@) && (exists|i: int|
            0 <= i < keys.len() && #[trigger] keys@[i]@ == "strip_height"@) ==> r == Ok::<
            InputKind,
            InputError,
        >(InputKind::Spp),
        (forall|i: int|
            0 <= i < keys.len() ==> #[trigger] keys@[i]@ != "bins"@ && keys@[i]@ != "strip_height"@)
            ==> r == Err::<InputKind, InputError>(InputError::UnknownShape),
{
    if holds_key(keys, "bins") {
        Ok(InputKind::Bpp)
    } else if holds_key(keys, "strip_height") {
        Ok(InputKind::Spp)
    } else {
        Err(InputError::UnknownShape)
    }
}

/// The kind of instance the text of an input file holds, told by its
/// top-level keys; an error when it is not JSON, not an object, or has
/// neither shape.
pub fn sniff_input(text: &str) -> (r: Result<InputKind, InputError>)
    ensures
        r == spec_sniff_input(text@),
        json_object_keys(text@) is None ==> r == Err::<InputKind, InputError>(InputError::InvalidJson),
        json_object_keys(text@) == Some(None::<Seq<Seq<char>>>) ==> r == Err::<InputKind, InputError>(
            InputError::NotAnObject,
        ),
        json_object_keys(text@) matches Some(Some(keys)) ==> (keys.contains("bins"@) ==> r == Ok::<
            InputKind,
            InputError,
        >(InputKind::Bpp)),
        json_object_keys(text@) matches Some(Some(keys)) ==> (!keys.contains("bins"@)
            && keys.contains("strip_height"@) ==> r == Ok::<InputKind, InputError>(InputKind::Spp)),
        json_object_keys(text@) matches Some(Some(keys)) ==> (!keys.contains("bins"@)
            && !keys.contains("strip_height"@) ==> r == Err::<InputKind, InputError>(
            InputError::UnknownShape,
        )),
{
    match parse_json_object_keys(text) {
        Err(_) => Err(InputError::InvalidJson),
        Ok(None) => Err(InputError::NotAnObject),
        Ok(Some(keys)) => classify_input_keys(&keys),
    }
}

/// Path of the final JSON of the instance `name`.
pub open spec fn final_json_path(name: Seq<char>) -> Seq<char> {
    OUTPUT_DIR@ + "/final_"@ + name + ".json"@
}

/// The final JSON of an instance lies in `output/` and carries the whole
/// instance name between `final_` and `.json`: the name can be read back
/// from the path, so two instances never share a final JSON file.
pub proof fn lemma_final_json_path_names_instance(a: Seq<char>, b: Seq<char>)
    ensures
        final_json_path(a) == "output/final_"@ + a + ".json"@,
        final_json_path(a).len() == a.len() + 18,
        final_json_path(a).subrange(13, 13 + a.len() as int) == a,
        final_json_path(a) == final_json_path(b) ==> a == b,
{
    reveal_strlit("output");
    reveal_strlit("/final_");
    reveal_strlit("output/final_");
    reveal_strlit(".json");
    assert(OUTPUT_DIR@ + "/final_"@ =~= "output/final_"@);
    assert(final_json_path(a) =~= "output/final_"@ + a + ".json"@);
    assert(final_json_path(b) =~= "output/final_"@ + b + ".json"@);
    assert(final_json_path(a).subrange(13, 13 + a.len() as int) =~= a);
    assert(final_json_path(b).subrange(13, 13 + b.len() as int) =~= b);
}

/// Path of the final JSON (instance and solution) of the instance `name`.
pub fn final_json_file(name: &str) -> (p: String)
    ensures
        p@ == final_json_path(name@),
        p@ == "output/final_"@ + name@ + ".json"@,
{
    let mut p = String::from_str(OUTPUT_DIR);
    p.append("/final_");
    p.append(name);
    p.append(".json");
    proof {
        reveal_strlit("output");
        reveal_strlit("/final_");
        reveal_strlit("output/final_");
        assert(OUTPUT_DIR@ + "/final_"@ =~= "output/final_"@);
        assert(p@ =~= "output/final_"@ + name@ + ".json"@);
    }
    p
}

/// Path of the log file.
pub fn log_file() -> (p: String)
    ensures
        p@ == OUTPUT_DIR@ + "/log.txt"@,
        p@ == "output/log.txt"@,
{
    let mut p = String::from_str(OUTPUT_DIR);
    p.append("/log.txt");
    proof {
        reveal_strlit("output");
        reveal_strlit("/log.txt");
        reveal_strlit("output/log.txt");
        assert(p@ =~= "output/log.txt"@);
    }
    p
}

/// Time limit used when the command line sets none, in seconds.
pub const DEFAULT_TIME_LIMIT_SECS: u64 = 600;

/// How the run's time is set by the command line.
#[derive(Debug, Clone, Copy, PartialEq, Eq, Structural)]
pub enum TimeBudget {
    /// A global limit, split between exploration and compression by the
    /// configured ratios.
    Global { secs: u64 },
    /// Separate limits for exploration and compression.
    Phases { exploration_secs: u64, compression_secs: u64 },
    /// No limit given: the default global limit applies, with a warning.
    Unspecified,
}

/// The command line set time limits in a combination that is not accepted.
#[derive(Debug, Clone, Copy, PartialEq, Eq, Structural)]
pub enum CliError {
    InvalidTimeLimits,
}

/// The time budget of the command line's `-t`, `-e` and `-c` options: a
/// global limit alone, exploration and compression limits together, or none;
/// any other combination is refused.
pub fn resolve_time_budget(global: Option<u64>, exploration: Option<u64>, compression: Option<u64>) -> (r:
    Result<TimeBudget, CliError>)
    ensures
        (global is Some && exploration is None && compression is None) ==> r == Ok::<
            TimeBudget,
            CliError,
        >(TimeBudget::Global { secs: global.unwrap() }),
        (global is None && exploration is Some && compression is Some) ==> r == Ok::<
            TimeBudget,
            CliError,
        >(
            TimeBudget::Phases {
                exploration_secs: exploration.unwrap(),
                compression_secs: compression.unwrap(),
            },
        ),
        (global is None && exploration is None && compression is None) ==> r == Ok::<
            TimeBudget,
            CliError,
        >(TimeBudget::Unspecified),
        r is Err <==> !((global is Some && exploration is None && compression is None) || (global is None
            && exploration is Some && compression is Some) || (global is None && exploration is None
            && compression is None)),
{
    match (global, exploration, compression) {
        (Some(g), None, None) => Ok(TimeBudget::Global { secs: g }),
        (None, Some(e), Some(c)) => Ok(TimeBudget::Phases { exploration_secs: e, compression_secs: c }),
        (None, None, None) => Ok(TimeBudget::Unspecified),
        _ => Err(CliError::InvalidTimeLimits),
    }
}

/// Hours, minutes and seconds shown in log lines for `secs` elapsed seconds.
pub fn elapsed_clock(secs: u64) -> (hms: (u64, u64, u64))
    ensures
        hms.0 == (secs / 60) / 60,
        hms.1 == (secs / 60) % 60,
        hms.2 == secs % 60,
        hms.1 < 60,
        hms.2 < 60,
        hms.0 * 3600 + hms.1 * 60 + hms.2 == secs,
{
    let sec = secs % 60;
    let min = (secs / 60) % 60;
    let hours = (secs / 60) / 60;
    proof {
        lemma_clock_parts(secs as int);
    }
    (hours, min, sec)
}

/// Elapsed seconds split into hours, minutes (below 60) and seconds (below
/// 60) add up to the elapsed seconds.
pub proof fn lemma_clock_parts(secs: int)
    requires
        secs >= 0,
    ensures
        ((secs / 60) / 60) * 3600 + ((secs / 60) % 60) * 60 + secs % 60 == secs,
{
    let m = secs / 60;
    assert(secs == m * 60 + secs % 60) by (nonlinear_arith)
        requires m == secs / 60;
    assert(m == (m / 60) * 60 + m % 60) by (nonlinear_arith);
    assert(((m / 60) * 60 + m % 60) * 60 == (m / 60) * 3600 + (m % 60) * 60) by (nonlinear_arith);
}

} // verus!
