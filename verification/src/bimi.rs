use vstd::prelude::*;

verus! {

/// The brand-logo lookup result for one domain: best effort, independent of
/// the mailbox session.
pub struct BimiResponse {
    pub domain: String,
    pub logo_url: Option<String>,
    pub verified: bool,
}

/// The first `l=` tag at or after `i`, or -1 where none follows.
pub open spec fn lmark_from(s: Seq<char>, i: int) -> int
    decreases s.len() - i,
{
    if i < 0 || i + 2 > s.len() {
        -1
    } else if s[i] == 'l' && s[i + 1] == '=' {
        i
    } else {
        lmark_from(s, i + 1)
    }
}

/// The record text carries an `l=` tag somewhere.
pub open spec fn has_lmark(s: Seq<char>) -> bool {
    lmark_from(s, 0) >= 0
}

/// The first `l=` tag.
pub open spec fn lmark_pos(s: Seq<char>) -> int {
    lmark_from(s, 0)
}

/// A character that ends the URL field: the tag separator, a quote, or the
/// end of the line.
pub open spec fn is_term(c: char) -> bool {
    c == ';' || c == '"' || c == '\n' || c == '\r'
}

/// The first terminator at or after `start`, or the end of the text.
pub open spec fn term_pos(s: Seq<char>, start: int) -> int
    decreases s.len() - start,
{
    if start < 0 || start >= s.len() {
        s.len() as int
    } else if is_term(s[start]) {
        start
    } else {
        term_pos(s, start + 1)
    }
}

pub open spec fn trim_front(s: Seq<char>) -> Seq<char>
    decreases s.len(),
{
    if s.len() > 0 && s[0] == ' ' {
        trim_front(s.drop_first())
    } else {
        s
    }
}

pub open spec fn trim_back(s: Seq<char>) -> Seq<char>
    decreases s.len(),
{
    if s.len() > 0 && s.last() == ' ' {
        trim_back(s.drop_last())
    } else {
        s
    }
}

/// The URL extracted from a record: what stands between the first `l=` and
/// the next terminator, stripped of surrounding spaces.
pub open spec fn bimi_url_of(s: Seq<char>) -> Seq<char>
    recommends
        has_lmark(s),
{
    trim_back(trim_front(s.subrange(lmark_pos(s) + 2, term_pos(s, lmark_pos(s) + 2))))
}

/// Tests [`is_term`].
fn is_term_exec(c: char) -> (r: bool)
    ensures
        r == is_term(c),
{
    c == ';' || c == '"' || c == '\n' || c == '\r'
}

/// Extracts the logo URL from a raw brand-record text: `None` where no `l=`
/// tag occurs, otherwise the (possibly empty) URL after the first one.
pub fn parse_bimi_record(text: &str) -> (r: Option<String>)
    ensures
        (r is Some) == has_lmark(text@),
        r is Some ==> r->Some_0@ == bimi_url_of(text@),
{
    let len = text.unicode_len();
    let mut i: usize = 0;
    while i < len && i + 1 < len
        invariant
            len == text@.len(),
            i <= len,
            lmark_from(text@, 0) == lmark_from(text@, i as int),
        decreases len - i,
    {
        if text.get_char(i) == 'l' && text.get_char(i + 1) == '=' {
            proof {
                assert(lmark_from(text@, i as int) == i as int);
            }
            let start = i + 2;
            let mut j: usize = start;
            while j < len && !is_term_exec(text.get_char(j))
                invariant
                    len == text@.len(),
                    start <= j <= len,
                    term_pos(text@, start as int) == term_pos(text@, j as int),
                decreases len - j,
            {
                j = j + 1;
            }
            proof {
                assert(term_pos(text@, j as int) == j as int);
            }
            // Trim spaces off both ends of [start, j).
            let mut a: usize = start;
            while a < j && text.get_char(a) == ' '
                invariant
                    len == text@.len(),
                    start <= a <= j,
                    j <= len,
                    trim_front(text@.subrange(start as int, j as int)) == trim_front(
                        text@.subrange(a as int, j as int),
                    ),
                decreases j - a,
            {
                proof {
                    assert(text@.subrange(a as int, j as int).drop_first() =~= text@.subrange(
                        a as int + 1,
                        j as int,
                    ));
                }
                a = a + 1;
            }
            proof {
                assert(trim_front(text@.subrange(a as int, j as int)) == text@.subrange(
                    a as int,
                    j as int,
                ));
            }
            let mut b: usize = j;
            while b > a && text.get_char(b - 1) == ' '
                invariant
                    len == text@.len(),
                    a <= b <= j,
                    j <= len,
                    trim_back(text@.subrange(a as int, j as int)) == trim_back(
                        text@.subrange(a as int, b as int),
                    ),
                decreases b - a,
            {
                proof {
                    assert(text@.subrange(a as int, b as int).drop_last() =~= text@.subrange(
                        a as int,
                        b as int - 1,
                    ));
                }
                b = b - 1;
            }
            proof {
                assert(trim_back(text@.subrange(a as int, b as int)) == text@.subrange(
                    a as int,
                    b as int,
                ));
            }
            let part = text.substring_char(a, b);
            return Some(part.to_owned());
        }
        i = i + 1;
    }
    proof {
        assert(lmark_from(text@, i as int) == -1);
    }
    None
}

/// Wraps a lookup outcome for a domain: a found URL is reported verified, a
/// missing record is reported unverified with no URL — the feature never
/// fails hard.
pub fn get_bimi_logo(domain: String, looked_up: Option<String>) -> (r: BimiResponse)
    ensures
        r.domain@ == domain@,
        (r.logo_url is Some) == (looked_up is Some),
        r.verified == (looked_up is Some),
        looked_up matches Some(u) ==> r.logo_url matches Some(l) && l@ == u@,
{
    match looked_up {
        Some(url) => BimiResponse { domain, logo_url: Some(url), verified: true },
        None => BimiResponse { domain, logo_url: None, verified: false },
    }
}

} // verus!
