//! Settings of DuckDB write operations.

use std::collections::HashMap;

use vstd::prelude::*;

use crate::text::same;

verus! {

/// Configuration settings for DuckDB write operations.
#[derive(Clone, Copy, Debug, PartialEq, Eq, Structural)]
pub struct DuckDBWriteSettings {
    /// Whether to execute ANALYZE statements after data write operations to
    /// update table statistics for query optimization.
    pub recompute_statistics_on_write: bool,
    /// Whether an overwrite on a file-backed instance writes into a fresh
    /// database file and atomically swaps it in (reclaiming disk space and
    /// leaving a checkpointed, WAL-free file) instead of rewriting the table
    /// inside the live file.
    pub overwrite_file_swap: bool,
}

/// The value that `params` has for the key with the characters `key`.
pub open spec fn lookup(params: Map<String, String>, key: Seq<char>) -> Option<Seq<char>> {
    if exists|k: String| #[trigger] params.contains_key(k) && k@ == key {
        Some(params[choose|k: String| #[trigger] params.contains_key(k) && k@ == key]@)
    } else {
        None
    }
}

/// `HashMap::get` with a borrowed key: the value of the entry whose key has the
/// same characters, and `None` where no entry has.
#[verifier::external_body]
fn param<'p>(params: &'p HashMap<String, String>, key: &str) -> (r: Option<&'p String>)
    ensures
        match r {
            Some(value) => lookup(params@, key@) == Some(value@),
            None => lookup(params@, key@) is None,
        },
{
    params.get(key)
}

/// The lower case of a string with characters beyond ASCII.
pub uninterp spec fn lowercase_beyond_ascii(s: Seq<char>) -> Seq<char>;

/// Whether every character of `s` is ASCII.
pub open spec fn ascii(s: Seq<char>) -> bool {
    forall|i: int| 0 <= i < s.len() ==> #[trigger] s[i] <= '\u{7f}'
}

/// The lower case of `s`: of ASCII text, with the letters A to Z lowered.
pub open spec fn lowercase(s: Seq<char>) -> Seq<char> {
    if ascii(s) {
        s.map_values(|c: char| crate::mongodb::like::lowered(c))
    } else {
        lowercase_beyond_ascii(s)
    }
}

/// `str::to_lowercase`: the lower case of a string as Unicode defines it, which
/// of ASCII text lowers the letters A to Z and keeps the rest.
#[verifier::external_body]
fn to_lowercase(s: &str) -> (r: String)
    ensures
        r@ == (if ascii(s@) {
            s@.map_values(|c: char| crate::mongodb::like::lowered(c))
        } else {
            lowercase_beyond_ascii(s@)
        }),
{
    s.to_lowercase()
}

/// The truth value that a lowered parameter value spells.
pub open spec fn switch(lowered: Seq<char>) -> Option<bool> {
    if lowered == "true"@ || lowered == "enabled"@ {
        Some(true)
    } else if lowered == "false"@ || lowered == "disabled"@ {
        Some(false)
    } else {
        None
    }
}

/// The truth value that a lowered parameter value spells, if it spells one.
pub fn parse_switch(lowered: &str) -> (r: Option<bool>)
    ensures
        r == switch(lowered@),
{
    proof {
        reveal_strlit("true");
        reveal_strlit("enabled");
        reveal_strlit("false");
        reveal_strlit("disabled");
    }
    if same(lowered, "true") || same(lowered, "enabled") {
        Some(true)
    } else if same(lowered, "false") || same(lowered, "disabled") {
        Some(false)
    } else {
        None
    }
}

/// What a parameter sets: what its value spells in any case, and `default`
/// where it is not there or spells nothing.
pub open spec fn setting(value: Option<Seq<char>>, default: bool) -> bool {
    match value {
        Some(text) => match switch(lowercase(text)) {
            Some(enabled) => enabled,
            None => default,
        },
        None => default,
    }
}

fn read_setting(params: &HashMap<String, String>, key: &str, default: bool) -> (r: bool)
    ensures
        r == setting(lookup(params@, key@), default),
{
    match param(params, key) {
        Some(value) => {
            let lowered = to_lowercase(value.as_str());
            match parse_switch(lowered.as_str()) {
                Some(enabled) => enabled,
                None => default,
            }
        },
        None => default,
    }
}

impl Default for DuckDBWriteSettings {
    fn default() -> (r: Self)
        ensures
            r == (DuckDBWriteSettings {
                recompute_statistics_on_write: true,
                overwrite_file_swap: false,
            }),
    {
        DuckDBWriteSettings {
            // Enabled by default for better query performance.
            recompute_statistics_on_write: true,
            overwrite_file_swap: false,
        }
    }
}

impl DuckDBWriteSettings {
    /// Create new settings with default values.
    pub fn new() -> (r: Self)
        ensures
            r.recompute_statistics_on_write,
            !r.overwrite_file_swap,
    {
        DuckDBWriteSettings::default()
    }

    /// Set whether to recompute statistics on write.
    pub fn with_recompute_statistics_on_write(self, enabled: bool) -> (r: Self)
        ensures
            r == (DuckDBWriteSettings { recompute_statistics_on_write: enabled, ..self }),
    {
        DuckDBWriteSettings { recompute_statistics_on_write: enabled, ..self }
    }

    /// Set whether overwrites swap in a freshly written database file.
    pub fn with_overwrite_file_swap(self, enabled: bool) -> (r: Self)
        ensures
            r == (DuckDBWriteSettings { overwrite_file_swap: enabled, ..self }),
    {
        DuckDBWriteSettings { overwrite_file_swap: enabled, ..self }
    }

    /// Parse settings from table creation parameters. A value that spells
    /// neither `enabled` nor `disabled` leaves the default.
    pub fn from_params(params: &HashMap<String, String>) -> (r: Self)
        ensures
            r.recompute_statistics_on_write == setting(
                lookup(params@, "recompute_statistics_on_write"@),
                true,
            ),
            r.overwrite_file_swap == setting(lookup(params@, "overwrite_file_swap"@), false),
    {
        let settings = DuckDBWriteSettings::default();
        DuckDBWriteSettings {
            recompute_statistics_on_write: read_setting(
                params,
                "recompute_statistics_on_write",
                settings.recompute_statistics_on_write,
            ),
            overwrite_file_swap: read_setting(
                params,
                "overwrite_file_swap",
                settings.overwrite_file_swap,
            ),
        }
    }
}

/// Without parameters the settings are the defaults.
pub proof fn no_parameters_give_the_defaults(params: Map<String, String>)
    requires
        forall|k: String| !#[trigger] params.contains_key(k),
    ensures
        setting(lookup(params, "recompute_statistics_on_write"@), true),
        !setting(lookup(params, "overwrite_file_swap"@), false),
{
}

/// Of two spellings of a parameter that differ only in the case of ASCII
/// letters, each sets the same.
pub proof fn ascii_case_does_not_matter(a: Seq<char>, b: Seq<char>, default: bool)
    requires
        ascii(a),
        ascii(b),
        a.len() == b.len(),
        forall|i: int|
            0 <= i < a.len() ==> crate::mongodb::like::lowered(#[trigger] a[i])
                == crate::mongodb::like::lowered(b[i]),
    ensures
        setting(Some(a), default) == setting(Some(b), default),
{
    assert(lowercase(a) =~= lowercase(b));
}

/// A setting of ASCII text is on where the text, in any case, reads `true` or
/// `enabled`, off where it reads `false` or `disabled`, and else as it is by
/// default. A parameter that is not there leaves the default.
pub proof fn a_setting_is_what_its_text_says(text: Seq<char>, default: bool)
    requires
        forall|i: int| 0 <= i < text.len() ==> #[trigger] text[i] <= '\u{7f}',
    ensures
        ({
            let low = Seq::new(
                text.len(),
                |i: int| if 'A' <= text[i] <= 'Z' {
                    (text[i] as u32 + 32) as char
                } else {
                    text[i]
                },
            );
            &&& setting(Some(text), default) == (low == "true"@ || low == "enabled"@ || (default
                && low != "false"@ && low != "disabled"@))
            &&& setting(None, default) == default
        }),
{
    reveal_strlit("true");
    reveal_strlit("enabled");
    reveal_strlit("false");
    reveal_strlit("disabled");
    let low = Seq::new(
        text.len(),
        |i: int| if 'A' <= text[i] <= 'Z' {
            (text[i] as u32 + 32) as char
        } else {
            text[i]
        },
    );
    assert(lowercase(text) =~= low);
    assert("true"@.len() == 4 && "enabled"@.len() == 7 && "false"@.len() == 5 && "disabled"@.len()
        == 8);
}

} // verus!
