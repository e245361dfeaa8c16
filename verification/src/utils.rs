//! Ages, repository names and default file names.

use vstd::prelude::*;

use crate::charset;
use crate::charset::is_alphanumeric;
use crate::number;
use crate::number::signed_text;
use crate::text;
use crate::text::{chars_of, string_of};

verus! {

/// `n` units ago, in words.
pub open spec fn plural_ago(n: int, unit: Seq<char>) -> Seq<char> {
    if n == 1 {
        "1 "@ + unit + " ago"@
    } else {
        number::signed_decimal(n) + " "@ + unit + "s ago"@
    }
}

/// A number of seconds as an age: whole seconds, minutes, hours, days, months of thirty days or
/// years of 365 days, whichever is the largest unit that fits.
pub open spec fn age_text(seconds: int) -> Seq<char> {
    if seconds < 60 {
        plural_ago(seconds, "second"@)
    } else if seconds < 3600 {
        plural_ago(seconds / 60, "minute"@)
    } else if seconds < 86400 {
        plural_ago(seconds / 3600, "hour"@)
    } else if seconds < 2592000 {
        plural_ago(seconds / 86400, "day"@)
    } else if seconds < 31536000 {
        plural_ago(seconds / 2592000, "month"@)
    } else {
        plural_ago(seconds / 31536000, "year"@)
    }
}

/// `std::time::SystemTime::now`, as whole seconds since the Unix epoch. Nothing is claimed of the
/// result, which is up to the clock.
#[verifier::external_body]
pub(crate) fn unix_seconds() -> (r: i64) {
    std::time::SystemTime::now()
        .duration_since(std::time::UNIX_EPOCH)
        .unwrap_or_default()
        .as_secs() as i64
}

fn plural(n: i64, unit: &str) -> (r: String)
    ensures
        r@ == plural_ago(n as int, unit@),
{
    if n == 1 {
        let mut out = "1 ".to_owned();
        out.append(unit);
        out.append(" ago");
        out
    } else {
        let mut out = signed_text(n);
        out.append(" ");
        out.append(unit);
        out.append("s ago");
        out
    }
}

/// The age of `timestamp` at the time `now`, both in seconds since the epoch.
pub fn time_ago_at(now: i64, timestamp: i64) -> (r: String)
    ensures
        r@ == age_text(now.wrapping_sub(timestamp) as int),
{
    let diff: i64 = now.wrapping_sub(timestamp);
    if diff < 60 {
        return plural(diff, "second");
    }
    let age: u64 = diff as u64;
    if age < 3600 {
        plural((age / 60) as i64, "minute")
    } else if age < 86400 {
        plural((age / 3600) as i64, "hour")
    } else if age < 2_592_000 {
        plural((age / 86400) as i64, "day")
    } else if age < 31_536_000 {
        plural((age / 2_592_000) as i64, "month")
    } else {
        plural((age / 31_536_000) as i64, "year")
    }
}

/// The age of `timestamp` now.
pub fn time_ago(timestamp: i64) -> (r: String)
    ensures
        exists|now: i64| r@ == #[trigger] age_text(now.wrapping_sub(timestamp) as int),
{
    let now = unix_seconds();
    let r = time_ago_at(now, timestamp);
    assert(r@ == age_text(now.wrapping_sub(timestamp) as int));
    r
}

/// The name of a repository: the last component of its canonical path, given where that path has
/// one that is text, and `repo` where it has none.
pub fn repo_name_from_path(file_name: Option<&str>) -> (r: String)
    ensures
        r@ == (match file_name {
            Some(name) => name@,
            None => "repo"@,
        }),
{
    match file_name {
        Some(name) => name.to_owned(),
        None => "repo".to_owned(),
    }
}

/// A name with every character that a file name should not hold replaced by a hyphen.
pub open spec fn file_name_safe(s: Seq<char>) -> Seq<char> {
    Seq::new(
        s.len(),
        |i: int|
            if charset::file_name_char(s[i]) {
                s[i]
            } else {
                '-'
            },
    )
}

/// Replaces every character that a file name should not hold by a hyphen.
pub fn safe_file_name(s: &str) -> (r: String)
    ensures
        r@ == file_name_safe(s@),
{
    let v = chars_of(s);
    let mut out = String::new();
    let mut i: usize = 0;
    while i < v.len()
        invariant
            v@ == s@,
            i <= v@.len(),
            out@ =~= file_name_safe(s@).take(i as int),
        decreases v@.len() - i,
    {
        let c = v[i];
        if is_alphanumeric(c) || c == '-' || c == '_' || c == '.' {
            out.push(c);
        } else {
            out.push('-');
        }
        i = i + 1;
    }
    assert(file_name_safe(s@).take(i as int) =~= file_name_safe(s@));
    out
}

/// The DOT file of a graph, where none is given.
pub open spec fn default_output(repo_name: Seq<char>, from: Option<Seq<char>>) -> Seq<char> {
    match from {
        Some(commit) => "ggv-"@ + repo_name + "-from-"@ + file_name_safe(commit) + ".dot"@,
        None => "ggv-"@ + repo_name + ".dot"@,
    }
}

/// The DOT file to write: the one that was asked for, else one named after the repository and
/// the commit that the graph starts from.
pub fn output_path(output: Option<&str>, repo_name: &str, from: Option<&str>) -> (r: String)
    ensures
        r@ == (match output {
            Some(path) => path@,
            None => default_output(repo_name@, text::opt_str_view(from)),
        }),
{
    match output {
        Some(path) => path.to_owned(),
        None => {
            let mut out = "ggv-".to_owned();
            out.append(repo_name);
            match from {
                Some(commit) => {
                    out.append("-from-");
                    let safe = safe_file_name(commit);
                    out.append(safe.as_str());
                },
                None => {},
            }
            out.append(".dot");
            out
        },
    }
}

/// An age of a minute or more counts whole units: as many as it says fit, and one more does not.
pub proof fn law_age_counts_whole_units(seconds: int)
    requires
        seconds >= 60,
    ensures
        exists|unit: int, n: int, name: Seq<char>|
            #![trigger plural_ago(n, name), unit * n]
            age_text(seconds) == plural_ago(n, name) && n >= 1 && unit * n <= seconds < unit * (n
                + 1) && (unit == 60 || unit == 3600 || unit == 86400 || unit == 2592000 || unit
                == 31536000),
{
    let pick = if seconds < 3600 {
        (60int, "minute"@)
    } else if seconds < 86400 {
        (3600int, "hour"@)
    } else if seconds < 2592000 {
        (86400int, "day"@)
    } else if seconds < 31536000 {
        (2592000int, "month"@)
    } else {
        (31536000int, "year"@)
    };
    let unit = pick.0;
    let name = pick.1;
    let n = seconds / unit;
    assert(age_text(seconds) == plural_ago(n, name));
    assert(unit * n <= seconds < unit * (n + 1));
}

/// A path without the separators at its end.
pub open spec fn without_separators(path: Seq<char>) -> Seq<char>
    decreases path.len(),
{
    if path.len() > 0 && (path.last() == '/' || path.last() == '\\') {
        without_separators(path.drop_last())
    } else {
        path
    }
}

/// A path without the separators at its end.
pub fn trim_separators(path: &str) -> (r: String)
    ensures
        r@ == without_separators(path@),
{
    let v = chars_of(path);
    let mut end: usize = v.len();
    assert(path@.take(end as int) =~= path@);
    while end > 0 && (v[end - 1] == '/' || v[end - 1] == '\\')
        invariant
            v@ == path@,
            end <= v@.len(),
            without_separators(path@) == without_separators(path@.take(end as int)),
        decreases end,
    {
        assert(path@.take(end as int).drop_last() =~= path@.take(end - 1));
        assert(path@.take(end as int).last() == v@[end - 1]);
        end = end - 1;
    }
    if end > 0 {
        assert(path@.take(end as int).last() == v@[end - 1]);
    }
    let out = string_of(&v, 0, end);
    assert(out@ =~= path@.take(end as int));
    out
}

} // verus!
