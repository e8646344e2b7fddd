use vstd::prelude::*;
use vstd::string::StrSliceExecFns;
use vstd::string::StringExecFns;
use crate::dict::Dict;
use crate::errors::BuildError;
use crate::errors::ErrView;

verus! {

// ---------------------------------------------------------------------------
// Character scanning
// ---------------------------------------------------------------------------
/// Index of the first occurrence of `c` in `s`, or `s.len()` when `c` is absent.
pub open spec fn find_char_spec(s: Seq<char>, c: char) -> nat
    decreases s.len(),
{
    if s.len() == 0 {
        0
    } else if s[0] == c {
        0
    } else {
        (1 + find_char_spec(s.drop_first(), c)) as nat
    }
}

pub proof fn lemma_find_char(s: Seq<char>, c: char)
    ensures
        find_char_spec(s, c) <= s.len(),
        find_char_spec(s, c) < s.len() ==> s[find_char_spec(s, c) as int] == c,
        forall|j: int| 0 <= j < find_char_spec(s, c) ==> s[j] != c,
    decreases s.len(),
{
    if s.len() > 0 && s[0] != c {
        lemma_find_char(s.drop_first(), c);
        assert forall|j: int| 0 <= j < find_char_spec(s, c) implies s[j] != c by {
            if j > 0 {
                assert(s.drop_first()[j - 1] != c);
            }
        }
    }
}

/// The number of leading space characters of `s`.
pub open spec fn leading_spaces_spec(s: Seq<char>) -> nat
    decreases s.len(),
{
    if s.len() == 0 {
        0
    } else if s[0] != ' ' {
        0
    } else {
        (1 + leading_spaces_spec(s.drop_first())) as nat
    }
}

pub proof fn lemma_leading_spaces(s: Seq<char>)
    ensures
        leading_spaces_spec(s) <= s.len(),
        leading_spaces_spec(s) < s.len() ==> s[leading_spaces_spec(s) as int] != ' ',
        forall|j: int| 0 <= j < leading_spaces_spec(s) ==> s[j] == ' ',
    decreases s.len(),
{
    if s.len() > 0 && s[0] == ' ' {
        lemma_leading_spaces(s.drop_first());
        assert forall|j: int| 0 <= j < leading_spaces_spec(s) implies s[j] == ' ' by {
            if j > 0 {
                assert(s.drop_first()[j - 1] == ' ');
            }
        }
    }
}

/// `s` without its leading spaces.
pub open spec fn trim_leading_spaces(s: Seq<char>) -> Seq<char> {
    s.subrange(leading_spaces_spec(s) as int, s.len() as int)
}

// ---------------------------------------------------------------------------
// Header delimiters
// ---------------------------------------------------------------------------
/// The input opens with a front-matter delimiter: a first line that is `---`.
pub open spec fn has_open(s: Seq<char>) -> bool {
    s.len() >= 3 && s[0] == '-' && s[1] == '-' && s[2] == '-' && (s.len() == 3 || s[3] == '\n')
}

/// A closing delimiter line `---` starts at index `q`: `q` begins a line, the
/// line reads `---`, and it ends at a newline or at the end of the input.
pub open spec fn is_close_at(s: Seq<char>, q: int) -> bool {
    4 <= q && q + 3 <= s.len() && s[q - 1] == '\n' && s[q] == '-' && s[q + 1] == '-' && s[q + 2]
        == '-' && (q + 3 == s.len() || s[q + 3] == '\n')
}

pub open spec fn has_close(s: Seq<char>) -> bool {
    exists|q: int| is_close_at(s, q)
}

/// `q` is the first closing delimiter position.
pub open spec fn first_close_at(s: Seq<char>, q: int) -> bool {
    is_close_at(s, q) && (forall|p: int| 4 <= p < q ==> !is_close_at(s, p))
}

pub proof fn lemma_first_close_unique(s: Seq<char>, q1: int, q2: int)
    requires
        first_close_at(s, q1),
        first_close_at(s, q2),
    ensures
        q1 == q2,
{
}

/// The first closing delimiter position, assuming one exists.
pub open spec fn close_pos(s: Seq<char>) -> int {
    choose|q: int| first_close_at(s, q)
}

/// The raw header block: everything between the opening line and the first
/// closing line, including the newline that ends the last header line.
pub open spec fn header_of(s: Seq<char>) -> Seq<char> {
    s.subrange(4, close_pos(s))
}

/// The body: everything after the first closing delimiter line.
pub open spec fn body_of(s: Seq<char>) -> Seq<char> {
    if close_pos(s) + 4 <= s.len() {
        s.subrange(close_pos(s) + 4, s.len() as int)
    } else {
        Seq::empty()
    }
}

// ---------------------------------------------------------------------------
// Header entries
// ---------------------------------------------------------------------------
/// Parses the header block line by line.  A line `key: value` yields the pair
/// (`key`, `value` without leading spaces); a blank line is skipped; a
/// non-blank line without a colon makes the whole header malformed.
pub open spec fn parse_entries_spec(s: Seq<char>) -> Option<Seq<(Seq<char>, Seq<char>)>>
    decreases s.len(),
{
    if s.len() == 0 {
        Some(Seq::empty())
    } else {
        let nl = find_char_spec(s, '\n') as int;
        let line = s.subrange(0, nl);
        let rest = if nl + 1 <= s.len() {
            s.subrange(nl + 1, s.len() as int)
        } else {
            Seq::empty()
        };
        let tail = parse_entries_spec(rest);
        if line.len() == 0 {
            tail
        } else {
            let colon = find_char_spec(line, ':') as int;
            if colon == line.len() {
                None
            } else {
                let key = line.subrange(0, colon);
                let value = trim_leading_spaces(line.subrange(colon + 1, line.len() as int));
                match tail {
                    Some(es) => Some(seq![(key, value)] + es),
                    None => None,
                }
            }
        }
    }
}

// ---------------------------------------------------------------------------
// The whole parse
// ---------------------------------------------------------------------------
/// What `parse` returns: no opening delimiter means the whole input is body;
/// an opening delimiter without a closing one, or an unreadable header line,
/// is a malformed header; otherwise header entries plus body.
pub open spec fn parse_spec(s: Seq<char>) -> Result<
    (Option<Seq<(Seq<char>, Seq<char>)>>, Seq<char>),
    ErrView,
> {
    if !has_open(s) {
        Ok((None, s))
    } else if !has_close(s) {
        Err(ErrView::MalformedHeader)
    } else {
        match parse_entries_spec(header_of(s)) {
            None => Err(ErrView::MalformedHeader),
            Some(es) => Ok((Some(es), body_of(s))),
        }
    }
}

/// The exec result `fm, body` agrees with `parse_spec` on `s`.
pub open spec fn parse_result_matches(
    s: Seq<char>,
    r: Result<(Option<Dict>, String), BuildError>,
) -> bool {
    match r {
        Ok((fm, body)) => parse_spec(s) is Ok && body@ == parse_spec(s)->Ok_0.1 && (match (
            fm,
            parse_spec(s)->Ok_0.0,
        ) {
            (Some(d), Some(es)) => d.entries_view() == es,
            (None, None) => true,
            _ => false,
        }),
        Err(e) => parse_spec(s) is Err && e@ == parse_spec(s)->Err_0,
    }
}

fn find_char(s: &str, c: char) -> (r: usize)
    ensures
        r == find_char_spec(s@, c),
        r <= s@.len(),
{
    let n = s.unicode_len();
    let mut i: usize = 0;
    while i < n
        invariant
            i <= n,
            n == s@.len(),
            forall|j: int| 0 <= j < i ==> s@[j] != c,
        decreases n - i,
    {
        if s.get_char(i) == c {
            proof {
                lemma_find_char(s@, c);
            }
            return i;
        }
        i = i + 1;
    }
    proof {
        lemma_find_char(s@, c);
    }
    n
}

fn leading_spaces(s: &str) -> (r: usize)
    ensures
        r == leading_spaces_spec(s@),
        r <= s@.len(),
{
    let n = s.unicode_len();
    let mut i: usize = 0;
    while i < n
        invariant
            i <= n,
            n == s@.len(),
            forall|j: int| 0 <= j < i ==> s@[j] == ' ',
        decreases n - i,
    {
        if s.get_char(i) != ' ' {
            proof {
                lemma_leading_spaces(s@);
            }
            return i;
        }
        i = i + 1;
    }
    proof {
        lemma_leading_spaces(s@);
    }
    n
}

/// Finds the first closing delimiter line, scanning from the front.
fn scan_close(s: &str) -> (r: Option<usize>)
    requires
        s@.len() >= 4,
    ensures
        match r {
            Some(q) => first_close_at(s@, q as int),
            None => !has_close(s@),
        },
{
    let n = s.unicode_len();
    let mut q: usize = 4;
    while q <= n - 3
        invariant
            4 <= q,
            n == s@.len(),
            4 <= n,
            forall|p: int| 4 <= p < q ==> !is_close_at(s@, p),
        decreases n - q,
    {
        if s.get_char(q - 1) == '\n' && s.get_char(q) == '-' && s.get_char(q + 1) == '-'
            && s.get_char(q + 2) == '-' && (q + 3 == n || s.get_char(q + 3) == '\n') {
            return Some(q);
        }
        q = q + 1;
    }
    None
}

fn parse_entries(s: &str) -> (r: Result<Vec<(String, String)>, BuildError>)
    ensures
        match r {
            Ok(es) => parse_entries_spec(s@) == Some(es.deep_view()),
            Err(e) => parse_entries_spec(s@) is None && e@ is MalformedHeader,
        },
    decreases s@.len(),
{
    let n = s.unicode_len();
    if n == 0 {
        let empty: Vec<(String, String)> = Vec::new();
        proof {
            assert(empty.deep_view() =~= Seq::<(Seq<char>, Seq<char>)>::empty());
        }
        return Ok(empty);
    }
    let nl = find_char(s, '\n');
    let line = s.substring_char(0, nl);
    let rest = if nl < n {
        s.substring_char(nl + 1, n)
    } else {
        ""
    };
    proof {
        reveal_strlit("");
        assert(""@ =~= Seq::<char>::empty());
    }
    if line.unicode_len() == 0 {
        return parse_entries(rest);
    }
    let line_n = line.unicode_len();
    let colon = find_char(line, ':');
    if colon == line_n {
        return Err(BuildError::MalformedHeader);
    }
    let key = line.substring_char(0, colon).to_owned();
    let after = line.substring_char(colon + 1, line_n);
    let skip = leading_spaces(after);
    let value = after.substring_char(skip, after.unicode_len()).to_owned();
    let mut tail = match parse_entries(rest) {
        Ok(es) => es,
        Err(e) => {
            return Err(e);
        },
    };
    let ghost tail_view = tail.deep_view();
    tail.insert(0, (key, value));
    proof {
        assert(tail.deep_view() =~= seq![(key@, value@)] + tail_view);
    }
    Ok(tail)
}

/// Splits a raw document into an optional front-matter header and a body.
///
/// With no opening `---` line the whole input is the body and that is not an
/// error.  With an opening line but no closing `---` line, or with a header
/// line that has no `key: value` shape, the header is malformed.
pub fn parse(raw: &str) -> (r: Result<(Option<Dict>, String), BuildError>)
    ensures
        parse_result_matches(raw@, r),
{
    let n = raw.unicode_len();
    let open = n >= 3 && raw.get_char(0) == '-' && raw.get_char(1) == '-' && raw.get_char(2) == '-'
        && (n == 3 || raw.get_char(3) == '\n');
    if !open {
        return Ok((None, raw.to_owned()));
    }
    if n == 3 {
        proof {
            assert(forall|q: int| !is_close_at(raw@, q));
        }
        return Err(BuildError::MalformedHeader);
    }
    let q = match scan_close(raw) {
        Some(q) => q,
        None => {
            return Err(BuildError::MalformedHeader);
        },
    };
    proof {
        assert(first_close_at(raw@, q as int));
        assert(first_close_at(raw@, close_pos(raw@)));
        lemma_first_close_unique(raw@, q as int, close_pos(raw@));
    }
    let header = raw.substring_char(4, q);
    let entries = match parse_entries(header) {
        Ok(es) => es,
        Err(_) => {
            return Err(BuildError::MalformedHeader);
        },
    };
    let body = if q <= n - 4 {
        raw.substring_char(q + 4, n).to_owned()
    } else {
        String::new()
    };
    proof {
        assert(body@ =~= body_of(raw@));
    }
    Ok((Some(Dict { entries }), body))
}

} // verus!
