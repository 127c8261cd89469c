use vstd::prelude::*;

verus! {

/// Whether `text` is a JSON document, as `serde_json` reads it.
pub uninterp spec fn json_parses(text: Seq<char>) -> bool;

/// The string under `key` of the JSON object that `text` holds, as
/// `serde_json` reads it: `None` when `text` is no JSON, is not an object,
/// has no such key, or holds something other than a string there.
pub uninterp spec fn json_string_field(text: Seq<char>, key: Seq<char>) -> Option<Seq<char>>;

/// Whether `text` parses as JSON: `serde_json::from_str::<Value>` and
/// `Result::is_ok`. The result is named by [`json_parses`].
#[verifier::external_body]
fn parses_as_json(text: &str) -> (b: bool)
    ensures
        b == json_parses(text@),
{
    serde_json::from_str::<serde_json::Value>(text).is_ok()
}

/// The string under `key` of the JSON object in `text`:
/// `serde_json::from_str::<Value>`, then `Value::get` with the key (which
/// gives `None` for anything but an object without that key) and
/// `Value::as_str` (`None` for anything but a string). The result is named
/// by [`json_string_field`]; text that does not parse gives `None`.
#[verifier::external_body]
fn string_field(text: &str, key: &str) -> (r: Option<String>)
    ensures
        r is Some == json_string_field(text@, key@) is Some,
        r matches Some(s) ==> json_string_field(text@, key@) == Some(s@),
        !json_parses(text@) ==> r is None,
{
    let value = serde_json::from_str::<serde_json::Value>(text).ok()?;
    value.get(key).and_then(|v| v.as_str()).map(|s| s.to_owned())
}

/// The asset paths of a project file, as written in it.
pub struct ProjectPaths {
    pub chart_path: String,
    pub audio_path: String,
}

/// Why a project file is refused.
#[derive(Debug, Clone, Copy, PartialEq, Eq, Structural)]
pub enum ProjectFileError {
    /// The text is no JSON.
    InvalidJson,
    /// There is no `chart_path` string.
    MissingChartPath,
    /// The chart path is empty.
    EmptyChartPath,
    /// There is no `audio_path` string.
    MissingAudioPath,
}

/// The string under `key` is there and not empty.
pub open spec fn field_holds_text(text: Seq<char>, key: Seq<char>) -> bool {
    match json_string_field(text, key) {
        Some(c) => c.len() > 0,
        None => false,
    }
}

/// Reads the asset paths of a project file (`.iffproj`): the JSON text must
/// hold a non-empty `chart_path` string and an `audio_path` string, which
/// may be empty (no audio).
pub fn read_project_paths(text: &str) -> (r: Result<ProjectPaths, ProjectFileError>)
    ensures
        r is Ok <==> (field_holds_text(text@, "chart_path"@) && json_string_field(
            text@,
            "audio_path"@,
        ) is Some),
        r matches Ok(p) ==> Some(p.chart_path@) == json_string_field(text@, "chart_path"@) && Some(
            p.audio_path@,
        ) == json_string_field(text@, "audio_path"@),
        r == Err::<ProjectPaths, ProjectFileError>(ProjectFileError::InvalidJson) <==> !json_parses(
            text@,
        ),
        r == Err::<ProjectPaths, ProjectFileError>(ProjectFileError::MissingChartPath) <==> (
        json_parses(text@) && json_string_field(text@, "chart_path"@) is None),
        r == Err::<ProjectPaths, ProjectFileError>(ProjectFileError::EmptyChartPath) <==> (
        json_parses(text@) && json_string_field(text@, "chart_path"@) == Some(Seq::<char>::empty())),
        r == Err::<ProjectPaths, ProjectFileError>(ProjectFileError::MissingAudioPath) <==> (
        json_parses(text@) && field_holds_text(text@, "chart_path"@) && json_string_field(
            text@,
            "audio_path"@,
        ) is None),
{
    let ok = parses_as_json(text);
    let chart = string_field(text, "chart_path");
    let audio = string_field(text, "audio_path");
    if !ok {
        return Err(ProjectFileError::InvalidJson);
    }
    let chart_path = match chart {
        Some(c) => c,
        None => return Err(ProjectFileError::MissingChartPath),
    };
    if chart_path.unicode_len() == 0 {
        assert(chart_path@ =~= Seq::<char>::empty());
        return Err(ProjectFileError::EmptyChartPath);
    }
    match audio {
        Some(audio_path) => Ok(ProjectPaths { chart_path, audio_path }),
        None => Err(ProjectFileError::MissingAudioPath),
    }
}

/// `dir`'s components begin `asset`'s (components compared by their text).
pub open spec fn components_prefix(dir: Seq<String>, asset: Seq<String>) -> bool {
    &&& dir.len() <= asset.len()
    &&& forall|i: int| 0 <= i < dir.len() ==> (#[trigger] dir[i])@ == asset[i]@
}

/// How an asset path is written into a project file, over the components of
/// canonical paths: relative to the project folder `dir` when the asset lies
/// inside it, as it is otherwise.
pub fn relative_asset_path(dir: &Vec<String>, asset: &Vec<String>) -> (r: Vec<String>)
    ensures
        r@ == (if components_prefix(dir@, asset@) {
            asset@.skip(dir@.len() as int)
        } else {
            asset@
        }),
{
    let mut inside = dir.len() <= asset.len();
    if inside {
        let mut i: usize = 0;
        while i < dir.len() && dir[i] == asset[i]
            invariant
                dir.len() <= asset.len(),
                0 <= i <= dir.len(),
                forall|j: int| 0 <= j < i ==> (#[trigger] dir@[j])@ == asset@[j]@,
            decreases dir.len() - i,
        {
            i = i + 1;
        }
        inside = i == dir.len();
    }
    let start: usize = if inside {
        dir.len()
    } else {
        0
    };
    let mut r: Vec<String> = Vec::new();
    let mut k = start;
    while k < asset.len()
        invariant
            start <= k <= asset.len(),
            r@ == asset@.subrange(start as int, k as int),
        decreases asset.len() - k,
    {
        r.push(asset[k].clone());
        assert(r@ =~= asset@.subrange(start as int, k + 1));
        k = k + 1;
    }
    proof {
        if components_prefix(dir@, asset@) {
            assert(inside);
        }
        assert(asset@.subrange(0, asset@.len() as int) =~= asset@);
    }
    r
}

} // verus!
