//! Reading the `/etc/os-release` key/value format, and naming the running
//! distribution from the marker files a caller found on disk.

use vstd::prelude::*;
use vstd::string::*;

use crate::text::{
    find_char_from, first_char_from, lemma_first_char_from, matches_at, spec_trim, starts_with,
    trim,
};

verus! {

/// Contents of an `/etc/os-release` file, as a data structure. Keys not
/// covered by the named fields land in `extra`, in file order.
#[derive(Clone, Debug, Default, PartialEq)]
pub struct OsRelease {
    /// The URL where bugs should be reported for this OS.
    pub bug_report_url: String,
    /// The homepage of this OS.
    pub home_url: String,
    /// Identifier of the original upstream OS that this release is a derivative of.
    pub id_like: String,
    /// An identifier which describes this release, such as `ubuntu`.
    pub id: String,
    /// The name of this release, without the version string.
    pub name: String,
    /// The name of this release, with the version string.
    pub pretty_name: String,
    /// The URL describing this OS's privacy policy.
    pub privacy_policy_url: String,
    /// The URL for seeking support with this OS release.
    pub support_url: String,
    /// The codename of this version.
    pub version_codename: String,
    /// The version of this OS release, with additional details.
    pub version_id: String,
    /// The version of this OS release.
    pub version: String,
    /// Additional keys not covered by the named fields.
    pub extra: Vec<(String, String)>,
}

/// The mathematical shadow of an `OsRelease`.
pub ghost struct OsReleaseSpec {
    pub bug_report_url: Seq<char>,
    pub home_url: Seq<char>,
    pub id_like: Seq<char>,
    pub id: Seq<char>,
    pub name: Seq<char>,
    pub pretty_name: Seq<char>,
    pub privacy_policy_url: Seq<char>,
    pub support_url: Seq<char>,
    pub version_codename: Seq<char>,
    pub version_id: Seq<char>,
    pub version: Seq<char>,
    pub extra: Seq<(Seq<char>, Seq<char>)>,
}

/// Whether an `OsRelease` holds exactly the values of its shadow.
pub open spec fn osr_matches(r: OsRelease, s: OsReleaseSpec) -> bool {
    &&& r.bug_report_url@ == s.bug_report_url
    &&& r.home_url@ == s.home_url
    &&& r.id_like@ == s.id_like
    &&& r.id@ == s.id
    &&& r.name@ == s.name
    &&& r.pretty_name@ == s.pretty_name
    &&& r.privacy_policy_url@ == s.privacy_policy_url
    &&& r.support_url@ == s.support_url
    &&& r.version_codename@ == s.version_codename
    &&& r.version_id@ == s.version_id
    &&& r.version@ == s.version
    &&& r.extra@.map_values(|pr: (String, String)| (pr.0@, pr.1@)) == s.extra
}

/// The shadow with every field empty.
pub open spec fn spec_osr_empty() -> OsReleaseSpec {
    OsReleaseSpec {
        bug_report_url: Seq::empty(),
        home_url: Seq::empty(),
        id_like: Seq::empty(),
        id: Seq::empty(),
        name: Seq::empty(),
        pretty_name: Seq::empty(),
        privacy_policy_url: Seq::empty(),
        support_url: Seq::empty(),
        version_codename: Seq::empty(),
        version_id: Seq::empty(),
        version: Seq::empty(),
        extra: Seq::empty(),
    }
}

/// Whether `line` both starts and ends with `pattern`.
pub open spec fn spec_is_enclosed_with(line: Seq<char>, pattern: char) -> bool {
    line.len() > 0 && line[0] == pattern && line.last() == pattern
}

/// Tests whether `line` both starts and ends with `pattern`.
pub fn is_enclosed_with(line: &str, pattern: char) -> (r: bool)
    ensures
        r == spec_is_enclosed_with(line@, pattern),
{
    let n: usize = line.unicode_len();
    if n == 0 {
        false
    } else {
        line.get_char(0) == pattern && line.get_char(n - 1) == pattern
    }
}

/// A value read from an os-release line: the text after the key, trimmed,
/// and stripped of one pair of enclosing double or single quotes.
pub open spec fn spec_parse_line(line: Seq<char>, skip: nat) -> Seq<char>
    recommends
        skip <= line.len(),
{
    let t = spec_trim(line.skip(skip as int));
    if t.len() >= 2 && (spec_is_enclosed_with(t, '"') || spec_is_enclosed_with(t, '\'')) {
        t.subrange(1, t.len() - 1)
    } else {
        t
    }
}

/// Reads the value part of an os-release line, `skip` characters in.
pub fn parse_line(line: &str, skip: usize) -> (r: &str)
    requires
        skip <= line@.len(),
    ensures
        r@ == spec_parse_line(line@, skip as nat),
{
    let n: usize = line.unicode_len();
    let t: &str = trim(line.substring_char(skip, n));
    let m: usize = t.unicode_len();
    if m >= 2 && (is_enclosed_with(t, '"') || is_enclosed_with(t, '\'')) {
        t.substring_char(1, m - 1)
    } else {
        t
    }
}

/// How one line changes the accumulated record: a known `KEY=` prefix on
/// the trimmed line sets its field; any other line with a non-empty text
/// after a `=` appends to `extra`; the rest change nothing.
pub open spec fn spec_osr_step(acc: OsReleaseSpec, l: Seq<char>) -> OsReleaseSpec {
    let t = spec_trim(l);
    if matches_at(t, "NAME="@, 0) {
        OsReleaseSpec { name: spec_parse_line(t, "NAME="@.len()), ..acc }
    } else if matches_at(t, "VERSION="@, 0) {
        OsReleaseSpec { version: spec_parse_line(t, "VERSION="@.len()), ..acc }
    } else if matches_at(t, "ID="@, 0) {
        OsReleaseSpec { id: spec_parse_line(t, "ID="@.len()), ..acc }
    } else if matches_at(t, "ID_LIKE="@, 0) {
        OsReleaseSpec { id_like: spec_parse_line(t, "ID_LIKE="@.len()), ..acc }
    } else if matches_at(t, "PRETTY_NAME="@, 0) {
        OsReleaseSpec { pretty_name: spec_parse_line(t, "PRETTY_NAME="@.len()), ..acc }
    } else if matches_at(t, "VERSION_ID="@, 0) {
        OsReleaseSpec { version_id: spec_parse_line(t, "VERSION_ID="@.len()), ..acc }
    } else if matches_at(t, "HOME_URL="@, 0) {
        OsReleaseSpec { home_url: spec_parse_line(t, "HOME_URL="@.len()), ..acc }
    } else if matches_at(t, "SUPPORT_URL="@, 0) {
        OsReleaseSpec { support_url: spec_parse_line(t, "SUPPORT_URL="@.len()), ..acc }
    } else if matches_at(t, "BUG_REPORT_URL="@, 0) {
        OsReleaseSpec { bug_report_url: spec_parse_line(t, "BUG_REPORT_URL="@.len()), ..acc }
    } else if matches_at(t, "PRIVACY_POLICY_URL="@, 0) {
        OsReleaseSpec {
            privacy_policy_url: spec_parse_line(t, "PRIVACY_POLICY_URL="@.len()),
            ..acc
        }
    } else if matches_at(t, "VERSION_CODENAME="@, 0) {
        OsReleaseSpec { version_codename: spec_parse_line(t, "VERSION_CODENAME="@.len()), ..acc }
    } else {
        let p = first_char_from(t, '=', 0);
        if p < t.len() && t.len() > p + 1 {
            OsReleaseSpec { extra: acc.extra.push((t.take(p as int), t.skip(p + 1 as int))), ..acc }
        } else {
            acc
        }
    }
}

/// The record an os-release text accumulates, line by line.
pub open spec fn spec_os_release(lines: Seq<Seq<char>>) -> OsReleaseSpec
    decreases lines.len(),
{
    if lines.len() == 0 {
        spec_osr_empty()
    } else {
        spec_osr_step(spec_os_release(lines.drop_last()), lines.last())
    }
}

fn osr_line(acc: &mut OsRelease, line: &str)
    ensures
        forall|s: OsReleaseSpec|
            osr_matches(*old(acc), s) ==> osr_matches(
                *final(acc),
                #[trigger] spec_osr_step(s, line@),
            ),
{
    let t: &str = trim(line);
    let n: usize = t.unicode_len();
    if starts_with(t, "NAME=") {
        acc.name = String::from_str(parse_line(t, "NAME=".unicode_len()));
    } else if starts_with(t, "VERSION=") {
        acc.version = String::from_str(parse_line(t, "VERSION=".unicode_len()));
    } else if starts_with(t, "ID=") {
        acc.id = String::from_str(parse_line(t, "ID=".unicode_len()));
    } else if starts_with(t, "ID_LIKE=") {
        acc.id_like = String::from_str(parse_line(t, "ID_LIKE=".unicode_len()));
    } else if starts_with(t, "PRETTY_NAME=") {
        acc.pretty_name = String::from_str(parse_line(t, "PRETTY_NAME=".unicode_len()));
    } else if starts_with(t, "VERSION_ID=") {
        acc.version_id = String::from_str(parse_line(t, "VERSION_ID=".unicode_len()));
    } else if starts_with(t, "HOME_URL=") {
        acc.home_url = String::from_str(parse_line(t, "HOME_URL=".unicode_len()));
    } else if starts_with(t, "SUPPORT_URL=") {
        acc.support_url = String::from_str(parse_line(t, "SUPPORT_URL=".unicode_len()));
    } else if starts_with(t, "BUG_REPORT_URL=") {
        acc.bug_report_url = String::from_str(parse_line(t, "BUG_REPORT_URL=".unicode_len()));
    } else if starts_with(t, "PRIVACY_POLICY_URL=") {
        acc.privacy_policy_url = String::from_str(
            parse_line(t, "PRIVACY_POLICY_URL=".unicode_len()),
        );
    } else if starts_with(t, "VERSION_CODENAME=") {
        acc.version_codename = String::from_str(parse_line(t, "VERSION_CODENAME=".unicode_len()));
    } else {
        let p: usize = find_char_from(t, '=', 0);
        proof {
            lemma_first_char_from(t@, '=', 0);
        }
        if p < n && n > p + 1 {
            let key: &str = t.substring_char(0, p);
            let value: &str = t.substring_char(p + 1, n);
            proof {
                assert(t@.subrange(0, p as int) =~= t@.take(p as int));
                assert(t@.subrange(p + 1, n as int) =~= t@.skip(p + 1));
            }
            acc.extra.push((String::from_str(key), String::from_str(value)));
            proof {
                assert forall|s: OsReleaseSpec|
                    osr_matches(*old(acc), s) implies osr_matches(
                    *acc,
                    #[trigger] spec_osr_step(s, line@),
                ) by {
                    assert(acc.extra@.map_values(|pr: (String, String)| (pr.0@, pr.1@))
                        =~= s.extra.push((t@.take(p as int), t@.skip(p + 1))));
                }
            }
        }
    }
}

impl OsRelease {
    /// Accumulates an `OsRelease` out of the lines of an os-release text,
    /// top to bottom; a later line with the same key wins.
    pub fn from_iter(lines: Vec<String>) -> (r: OsRelease)
        ensures
            osr_matches(r, spec_os_release(lines.deep_view())),
    {
        let ghost dv = lines.deep_view();
        let mut acc = OsRelease {
            bug_report_url: String::new(),
            home_url: String::new(),
            id_like: String::new(),
            id: String::new(),
            name: String::new(),
            pretty_name: String::new(),
            privacy_policy_url: String::new(),
            support_url: String::new(),
            version_codename: String::new(),
            version_id: String::new(),
            version: String::new(),
            extra: Vec::new(),
        };
        proof {
            assert(acc.extra@.map_values(|pr: (String, String)| (pr.0@, pr.1@)) =~= Seq::<
                (Seq<char>, Seq<char>),
            >::empty());
            assert(dv.take(0) =~~= Seq::<Seq<char>>::empty());
        }
        let n: usize = lines.len();
        let mut k: usize = 0;
        while k < n
            invariant
                k <= n,
                n == lines@.len(),
                dv == lines.deep_view(),
                osr_matches(acc, spec_os_release(dv.take(k as int))),
            decreases n - k,
        {
            proof {
                assert(dv.take(k + 1).drop_last() =~~= dv.take(k as int));
                assert(dv.take(k + 1).last() == dv[k as int]);
                assert(dv[k as int] == lines@[k as int]@);
            }
            osr_line(&mut acc, lines[k].as_str());
            k = k + 1;
        }
        proof {
            assert(dv.take(n as int) =~~= dv);
        }
        acc
    }
}

/// Which distribution marker a caller found on disk: the parsed
/// `/etc/os-release` contents when that file exists, or the first of the
/// legacy marker files.
pub struct DistroMarkers {
    /// The `pretty_name` of a parsed `/etc/os-release`, when present.
    pub os_release_pretty: Option<String>,
    pub redstar: bool,
    pub siduction: bool,
    pub gobolinux: bool,
    pub pcbsd: bool,
    pub trueos: bool,
    pub bedrock: bool,
    pub pacbsd: bool,
}

/// The distribution name the markers imply, in the fixed priority order.
pub open spec fn spec_distro(m: DistroMarkers) -> Seq<char> {
    if m.os_release_pretty.is_some() {
        m.os_release_pretty.unwrap()@
    } else if m.redstar {
        "Red Star OS"@
    } else if m.siduction {
        "Siductiond"@
    } else if m.gobolinux {
        "GoboLinux"@
    } else if m.pcbsd {
        "PCBSD"@
    } else if m.trueos {
        "TrueOS"@
    } else if m.bedrock {
        "Bedrock Linux"@
    } else if m.pacbsd {
        "PacBSD"@
    } else {
        "Unknown"@
    }
}

/// Names the running distribution from the markers found on disk: the
/// os-release pretty name when that file exists, else the name belonging
/// to the first legacy marker, else "Unknown".
pub fn distro(m: &DistroMarkers) -> (r: String)
    ensures
        r@ == spec_distro(*m),
{
    match &m.os_release_pretty {
        Some(p) => p.clone(),
        None => {
            if m.redstar {
                String::from_str("Red Star OS")
            } else if m.siduction {
                String::from_str("Siductiond")
            } else if m.gobolinux {
                String::from_str("GoboLinux")
            } else if m.pcbsd {
                String::from_str("PCBSD")
            } else if m.trueos {
                String::from_str("TrueOS")
            } else if m.bedrock {
                String::from_str("Bedrock Linux")
            } else if m.pacbsd {
                String::from_str("PacBSD")
            } else {
                String::from_str("Unknown")
            }
        },
    }
}

} // verus!
