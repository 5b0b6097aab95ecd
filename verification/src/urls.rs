//! Request URLs and artifact file names, built character-exactly:
//! decimal rendering of the page parameters, the two catalog endpoints,
//! and the `<slug>.zip` / `<slug>.zip.part` naming scheme.

use vstd::prelude::*;
use vstd::string::{StringExecFns, StrSliceExecFns};
use crate::models::opt_str_view;

verus! {

/// The decimal digit character for `d`.
pub open spec fn dec_digit(d: int) -> char {
    if d == 0 {
        '0'
    } else if d == 1 {
        '1'
    } else if d == 2 {
        '2'
    } else if d == 3 {
        '3'
    } else if d == 4 {
        '4'
    } else if d == 5 {
        '5'
    } else if d == 6 {
        '6'
    } else if d == 7 {
        '7'
    } else if d == 8 {
        '8'
    } else {
        '9'
    }
}

/// Decimal rendering of a natural number, most significant digit first.
pub open spec fn dec_nat(n: nat) -> Seq<char>
    decreases n,
{
    if n < 10 {
        seq![dec_digit(n as int)]
    } else {
        dec_nat(n / 10).push(dec_digit((n % 10) as int))
    }
}

/// Decimal rendering of an integer, with a leading minus sign when negative.
pub open spec fn dec_int(n: int) -> Seq<char> {
    if n < 0 {
        seq!['-'] + dec_nat((-n) as nat)
    } else {
        dec_nat(n as nat)
    }
}

fn digit_str(d: u64) -> (r: &'static str)
    requires
        d < 10,
    ensures
        r@ == seq![dec_digit(d as int)],
{
    proof {
        reveal_strlit("0");
        reveal_strlit("1");
        reveal_strlit("2");
        reveal_strlit("3");
        reveal_strlit("4");
        reveal_strlit("5");
        reveal_strlit("6");
        reveal_strlit("7");
        reveal_strlit("8");
        reveal_strlit("9");
    }
    let r = if d == 0 {
        "0"
    } else if d == 1 {
        "1"
    } else if d == 2 {
        "2"
    } else if d == 3 {
        "3"
    } else if d == 4 {
        "4"
    } else if d == 5 {
        "5"
    } else if d == 6 {
        "6"
    } else if d == 7 {
        "7"
    } else if d == 8 {
        "8"
    } else {
        "9"
    };
    proof {
        assert(r@ =~= seq![dec_digit(d as int)]);
    }
    r
}

/// Decimal rendering of an unsigned number.
pub fn u64_to_string(n: u64) -> (s: String)
    ensures
        s@ == dec_nat(n as nat),
    decreases n,
{
    if n < 10 {
        String::from_str(digit_str(n))
    } else {
        let mut s = u64_to_string(n / 10);
        s.append(digit_str(n % 10));
        proof {
            assert(s@ =~= dec_nat(n as nat));
        }
        s
    }
}

/// Decimal rendering of a signed number.
pub fn i64_to_string(n: i64) -> (s: String)
    ensures
        s@ == dec_int(n as int),
{
    if n >= 0 {
        u64_to_string(n as u64)
    } else {
        let mag: u64 = ((-(n + 1)) as u64) + 1;
        let mut s = String::from_str("-");
        let digits = u64_to_string(mag);
        s.append(digits.as_str());
        proof {
            reveal_strlit("-");
            assert(s@ =~= dec_int(n as int));
        }
        s
    }
}

/// The catalog query for one page of the "popular" browse mode.
pub open spec fn query_url_view(page: int, per_page: int) -> Seq<char> {
    "https://api.wordpress.org/plugins/info/1.2/"@
        + "?action=query_plugins&request[browse]=popular&request[per_page]="@ + dec_int(per_page)
        + "&request[page]="@ + dec_int(page)
}

/// Builds the catalog query URL selecting "popular" browse mode with the
/// given page size and page number.
pub fn build_query_url(page: i32, per_page: i32) -> (url: String)
    ensures
        url@ == query_url_view(page as int, per_page as int),
{
    let mut url = String::from_str("https://api.wordpress.org/plugins/info/1.2/");
    url.append("?action=query_plugins&request[browse]=popular&request[per_page]=");
    let pp = i64_to_string(per_page as i64);
    url.append(pp.as_str());
    url.append("&request[page]=");
    let pg = i64_to_string(page as i64);
    url.append(pg.as_str());
    url
}

/// The single-item detail query for one identifier.
pub open spec fn info_url_view(slug: Seq<char>) -> Seq<char> {
    "https://api.wordpress.org/plugins/info/1.2/"@ + "?action=plugin_information&request[slug]="@
        + slug
}

/// Builds the single-item detail URL for `slug`.
pub fn build_info_url(slug: &str) -> (url: String)
    ensures
        url@ == info_url_view(slug@),
{
    let mut url = String::from_str("https://api.wordpress.org/plugins/info/1.2/");
    url.append("?action=plugin_information&request[slug]=");
    url.append(slug);
    url
}

/// Final on-disk name of an item's downloaded artifact.
pub fn artifact_file_name(slug: &str) -> (r: String)
    ensures
        r@ == slug@ + ".zip"@,
{
    let mut r = String::from_str(slug);
    r.append(".zip");
    r
}

/// Name of the temporary sibling file an artifact is staged into before
/// the atomic rename to its final name.
pub fn partial_file_name(slug: &str) -> (r: String)
    ensures
        r@ == slug@ + ".zip.part"@,
{
    let mut r = String::from_str(slug);
    r.append(".zip.part");
    r
}

/// The identifier encoded in an archive file name: the stem of a
/// non-empty name ending in the archive extension, absent otherwise.
pub open spec fn zip_stem_view(name: Seq<char>) -> Option<Seq<char>> {
    if name.len() > 4 && name.skip(name.len() - 4) == ".zip"@ {
        Some(name.take(name.len() - 4))
    } else {
        None
    }
}

/// Derives the item identifier from an archive file name, accepting only
/// names of the form `<stem>.zip` with a non-empty stem.
pub fn zip_slug(file_name: &str) -> (r: Option<String>)
    ensures
        opt_str_view(r) == zip_stem_view(file_name@),
{
    proof {
        reveal_strlit(".zip");
    }
    let n = file_name.unicode_len();
    if n <= 4 {
        return None;
    }
    if file_name.get_char(n - 4) == '.' && file_name.get_char(n - 3) == 'z' && file_name.get_char(
        n - 2,
    ) == 'i' && file_name.get_char(n - 1) == 'p' {
        proof {
            assert(file_name@.skip(n - 4) =~= ".zip"@);
        }
        let stem = file_name.substring_char(0, n - 4);
        Some(String::from_str(stem))
    } else {
        proof {
            assert(file_name@.skip(n - 4) != ".zip"@) by {
                let t = file_name@.skip(n - 4);
                assert(t[0] == file_name@[n - 4]);
                assert(t[1] == file_name@[n - 3]);
                assert(t[2] == file_name@[n - 2]);
                assert(t[3] == file_name@[n - 1]);
            }
        }
        None
    }
}

} // verus!
