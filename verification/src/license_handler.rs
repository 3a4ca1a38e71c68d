//! License normalization: canonical-identifier matching over a fixed list
//! of spelling variants, with a remote-file probe as fallback.
use vstd::prelude::*;
use vstd::string::*;

use crate::models::LicenseInfo;
use crate::models::ModelInfo;
use crate::text::lower_of;
use crate::text::str_replace_char;
use crate::text::to_lower;
use crate::text::to_upper;
use crate::text::upper_of;

verus! {

/// `s` with its trailing plus marks removed.
pub open spec fn strip_plus(s: Seq<char>) -> Seq<char>
    decreases s.len(),
{
    if s.len() > 0 && s[s.len() - 1] == '+' {
        strip_plus(s.drop_last())
    } else {
        s
    }
}

pub proof fn lemma_strip_plus_idempotent(s: Seq<char>)
    ensures
        strip_plus(strip_plus(s)) == strip_plus(s),
    decreases s.len(),
{
    if s.len() > 0 && s[s.len() - 1] == '+' {
        lemma_strip_plus_idempotent(s.drop_last());
    }
}

/// Whether a string is an identifier of the SPDX license table.
pub uninterp spec fn spdx_known_id(s: Seq<char>) -> bool;

/// Relies on `spdx::license_id`: trailing `+` marks are dropped, the rest is
/// looked up by exact comparison in the SPDX identifier table, and on a hit
/// the entry's name is exactly the looked-up string.
#[verifier::external_body]
fn spdx_lookup(s: &str) -> (r: Option<String>)
    ensures
        r is Some <==> spdx_known_id(strip_plus(s@)),
        r matches Some(id) ==> id@ == strip_plus(s@),
{
    spdx::license_id(s).map(|l| l.name.to_string())
}

/// `s` with every space turned into a dash.
pub open spec fn dashes(s: Seq<char>) -> Seq<char> {
    Seq::new(s.len(), |i: int| if s[i] == ' ' { '-' } else { s[i] })
}

/// `s` with every dash turned into a space.
pub open spec fn spaces(s: Seq<char>) -> Seq<char> {
    Seq::new(s.len(), |i: int| if s[i] == '-' { ' ' } else { s[i] })
}

/// The spelling variants tried against the license table, in order: the
/// input itself, lowercase, uppercase, lowercase with dashes, lowercase
/// with spaces, dashes, spaces.
pub open spec fn variant(s: Seq<char>, i: int) -> Seq<char> {
    if i == 0 {
        s
    } else if i == 1 {
        lower_of(s)
    } else if i == 2 {
        upper_of(s)
    } else if i == 3 {
        dashes(lower_of(s))
    } else if i == 4 {
        spaces(lower_of(s))
    } else if i == 5 {
        dashes(s)
    } else {
        spaces(s)
    }
}

/// The first variant index at or after `i` whose stripped form the license
/// table knows, or 7 when none of them is known.
pub open spec fn first_variant_from(s: Seq<char>, i: int) -> int
    decreases 7 - i,
{
    if i < 0 || i >= 7 {
        7
    } else if spdx_known_id(strip_plus(variant(s, i))) {
        i
    } else {
        first_variant_from(s, i + 1)
    }
}

/// Whether canonical matching succeeds on `s`.
pub open spec fn stage1_found(s: Seq<char>) -> bool {
    first_variant_from(s, 0) < 7
}

/// The canonical identifier that matching on `s` yields.
pub open spec fn stage1_id(s: Seq<char>) -> Seq<char> {
    strip_plus(variant(s, first_variant_from(s, 0)))
}

/// The reference URL of a canonical license identifier.
pub open spec fn spdx_url_of(id: Seq<char>) -> Seq<char> {
    "https://spdx.org/licenses/"@ + id
}

/// License data naming a canonical identifier: the identifier and its
/// reference URL, and no free-text name.
pub open spec fn is_spdx_info(li: LicenseInfo, id: Seq<char>) -> bool {
    &&& li.id matches Some(x) && x@ == id
    &&& li.name is None
    &&& li.url matches Some(u) && u@ == spdx_url_of(id)
}

/// The display name stage 2 attaches: the card-data license name if
/// present, else the record's raw license field, else the input itself.
pub open spec fn stage2_name(license: Seq<char>, m: ModelInfo) -> Seq<char> {
    let from_card = match m.card_data {
        Some(cd) => cd.license_name,
        None => None,
    };
    match from_card {
        Some(n) => n@,
        None => match m.license {
            Some(l) => l@,
            None => license,
        },
    }
}

proof fn lemma_first_variant_props(s: Seq<char>, i: int)
    requires
        0 <= i <= 7,
    ensures
        i <= first_variant_from(s, i) <= 7,
        first_variant_from(s, i) < 7 ==> spdx_known_id(
            strip_plus(variant(s, first_variant_from(s, i))),
        ),
    decreases 7 - i,
{
    if i < 7 && !spdx_known_id(strip_plus(variant(s, i))) {
        lemma_first_variant_props(s, i + 1);
    }
}

/// A canonical identifier free of trailing plus marks matches at the very
/// first variant and normalizes to itself.
pub proof fn lemma_stage1_canonical(s: Seq<char>)
    requires
        spdx_known_id(s),
        strip_plus(s) == s,
    ensures
        stage1_found(s),
        stage1_id(s) == s,
{
    assert(variant(s, 0) == s);
    assert(first_variant_from(s, 0) == 0);
}

/// Canonical matching is idempotent: the identifier it yields matches
/// again, and yields itself.
pub proof fn lemma_stage1_idempotent(s: Seq<char>)
    requires
        stage1_found(s),
    ensures
        stage1_found(stage1_id(s)),
        stage1_id(stage1_id(s)) == stage1_id(s),
{
    let i = first_variant_from(s, 0);
    lemma_first_variant_props(s, 0);
    assert(spdx_known_id(strip_plus(variant(s, i))));
    let id = stage1_id(s);
    lemma_strip_plus_idempotent(variant(s, i));
    assert(strip_plus(id) == id);
    lemma_stage1_canonical(id);
}

/// Normalizes license strings; holds no state of its own.
pub struct LicenseHandler;

impl LicenseHandler {
    pub fn new() -> (r: Self) {
        LicenseHandler
    }

    /// Whether canonical matching succeeds on this license text, so that no
    /// probe would be consulted.
    pub fn matches_spdx(&self, license: &str) -> (r: bool)
        ensures
            r == stage1_found(license@),
    {
        stage1_lookup(license).is_some()
    }

    /// Maps a free-text license to normalized license data: a canonical
    /// identifier when one of the spelling variants is in the license
    /// table; else, when the probe found a license file, its URL under a
    /// display name; else nothing.
    ///
    /// `probe_url` is the outcome of probing the artifact's hosting
    /// location for a license file; it is consulted only when canonical
    /// matching fails.
    pub fn normalize_license(
        &self,
        license: &str,
        model_info: &ModelInfo,
        probe_url: Option<String>,
    ) -> (r: Option<LicenseInfo>)
        ensures
            r is Some <==> (stage1_found(license@) || probe_url is Some),
            stage1_found(license@) ==> (r matches Some(li) && is_spdx_info(
                li,
                stage1_id(license@),
            )),
            (!stage1_found(license@) && probe_url is Some) ==> (r matches Some(li) && li.id is None
                && (li.name matches Some(n) && n@ == stage2_name(license@, *model_info)) && (li.url
                matches Some(x) && x@ == probe_url->0@)),
    {
        if let Some(id) = stage1_lookup(license) {
            let mut url = String::from_str("https://spdx.org/licenses/");
            url.append(id.as_str());
            return Some(LicenseInfo { id: Some(id), name: None, url: Some(url) });
        }
        if let Some(u) = probe_url {
            let name: String = if let Some(cd) = &model_info.card_data {
                if let Some(n) = &cd.license_name {
                    n.clone()
                } else if let Some(l) = &model_info.license {
                    l.clone()
                } else {
                    license.to_owned()
                }
            } else if let Some(l) = &model_info.license {
                l.clone()
            } else {
                license.to_owned()
            };
            return Some(LicenseInfo { id: None, name: Some(name), url: Some(u) });
        }
        None
    }
}

/// Runs the seven-variant canonical match, yielding the identifier.
fn stage1_lookup(license: &str) -> (r: Option<String>)
    ensures
        r is Some <==> stage1_found(license@),
        r matches Some(id) ==> id@ == stage1_id(license@),
{
    let ghost s = license@;
    if let Some(id) = spdx_lookup(license) {
        proof {
            assert(first_variant_from(s, 0) == 0);
        }
        return Some(id);
    }
    let lo = to_lower(license);
    if let Some(id) = spdx_lookup(lo.as_str()) {
        proof {
            assert(first_variant_from(s, 1) == 1);
            assert(first_variant_from(s, 0) == 1);
        }
        return Some(id);
    }
    let up = to_upper(license);
    if let Some(id) = spdx_lookup(up.as_str()) {
        proof {
            assert(first_variant_from(s, 2) == 2);
            assert(first_variant_from(s, 1) == 2);
            assert(first_variant_from(s, 0) == 2);
        }
        return Some(id);
    }
    let lo_dash = str_replace_char(lo.as_str(), ' ', '-');
    proof {
        assert(lo_dash@ =~= dashes(lower_of(s)));
    }
    if let Some(id) = spdx_lookup(lo_dash.as_str()) {
        proof {
            assert(first_variant_from(s, 3) == 3);
            assert(first_variant_from(s, 2) == 3);
            assert(first_variant_from(s, 1) == 3);
            assert(first_variant_from(s, 0) == 3);
        }
        return Some(id);
    }
    let lo_space = str_replace_char(lo.as_str(), '-', ' ');
    proof {
        assert(lo_space@ =~= spaces(lower_of(s)));
    }
    if let Some(id) = spdx_lookup(lo_space.as_str()) {
        proof {
            assert(first_variant_from(s, 4) == 4);
            assert(first_variant_from(s, 3) == 4);
            assert(first_variant_from(s, 2) == 4);
            assert(first_variant_from(s, 1) == 4);
            assert(first_variant_from(s, 0) == 4);
        }
        return Some(id);
    }
    let dash = str_replace_char(license, ' ', '-');
    proof {
        assert(dash@ =~= dashes(s));
    }
    if let Some(id) = spdx_lookup(dash.as_str()) {
        proof {
            assert(first_variant_from(s, 5) == 5);
            assert(first_variant_from(s, 4) == 5);
            assert(first_variant_from(s, 3) == 5);
            assert(first_variant_from(s, 2) == 5);
            assert(first_variant_from(s, 1) == 5);
            assert(first_variant_from(s, 0) == 5);
        }
        return Some(id);
    }
    let space = str_replace_char(license, '-', ' ');
    proof {
        assert(space@ =~= spaces(s));
    }
    if let Some(id) = spdx_lookup(space.as_str()) {
        proof {
            assert(first_variant_from(s, 6) == 6);
            assert(first_variant_from(s, 5) == 6);
            assert(first_variant_from(s, 4) == 6);
            assert(first_variant_from(s, 3) == 6);
            assert(first_variant_from(s, 2) == 6);
            assert(first_variant_from(s, 1) == 6);
            assert(first_variant_from(s, 0) == 6);
        }
        return Some(id);
    }
    proof {
        assert(first_variant_from(s, 7) == 7);
        assert(first_variant_from(s, 6) == 7);
        assert(first_variant_from(s, 5) == 7);
        assert(first_variant_from(s, 4) == 7);
        assert(first_variant_from(s, 3) == 7);
        assert(first_variant_from(s, 2) == 7);
        assert(first_variant_from(s, 1) == 7);
        assert(first_variant_from(s, 0) == 7);
    }
    None
}

/// The conventional license-file names the probe tries, in order.
pub fn license_file_candidates() -> (r: Vec<String>)
    ensures
        r@.len() == 5,
        r@[0]@ == "LICENSE"@,
        r@[1]@ == "LICENSE.txt"@,
        r@[2]@ == "LICENSE.md"@,
        r@[3]@ == "license"@,
        r@[4]@ == "license.txt"@,
{
    let mut v: Vec<String> = Vec::new();
    v.push(String::from_str("LICENSE"));
    v.push(String::from_str("LICENSE.txt"));
    v.push(String::from_str("LICENSE.md"));
    v.push(String::from_str("license"));
    v.push(String::from_str("license.txt"));
    v
}

/// The location probed for one candidate license file of an artifact.
pub fn license_probe_url(model_id: &str, filename: &str) -> (r: String)
    ensures
        r@ == "https://huggingface.co/"@ + model_id@ + "/resolve/main/"@ + filename@,
{
    let mut url = String::from_str("https://huggingface.co/");
    url.append(model_id);
    url.append("/resolve/main/");
    url.append(filename);
    url
}

} // verus!
