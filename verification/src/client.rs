//! The command-line client's decision logic: the wire shapes it reads, the
//! integer parser for column arguments, case-insensitive task and column
//! selection, and the resolver query URL.

use vstd::prelude::*;
use vstd::string::StringExecFns;
use vstd::string::StringSliceAdditionalSpecFns;

use crate::textops::{lower_of, lowercase, trim_of, trimmed, url_encode, url_encoded};

verus! {

/// A project as the client sees it.
#[derive(Debug)]
pub struct Project {
    pub id: i64,
    pub name: String,
}

/// A column as the client sees it.
#[derive(Debug)]
pub struct Column {
    pub id: i64,
    pub name: String,
    pub sort_order: i64,
}

/// A task as the client sees it.
#[derive(Debug)]
pub struct Task {
    pub id: i64,
    pub title: String,
    pub column_id: i64,
    pub description: Option<String>,
}

/// A path binding as the client sees it.
#[derive(Debug)]
pub struct LinkedPath {
    pub id: i64,
    pub project_id: i64,
    pub path: String,
    pub hostname: Option<String>,
    pub default_column_id: Option<i64>,
}

/// A resolver answer as the client sees it.
#[derive(Debug)]
pub struct LinkedPathLookup {
    pub linked_path: LinkedPath,
    pub project_name: String,
}

/// What the client sends to bind the current directory.
#[derive(Debug)]
pub struct CreateLinkedPathParams {
    pub project_id: i64,
    pub path: String,
    pub hostname: Option<String>,
    pub default_column_id: Option<i64>,
}

/// What the client sends to create a task.
#[derive(Debug)]
pub struct CreateTaskParams {
    pub project_id: i64,
    pub column_id: Option<i64>,
    pub title: String,
    pub description: Option<String>,
    pub source_tag: Option<String>,
}

/// Why a task or column selection failed.
#[derive(Clone, Copy, Debug, PartialEq, Eq, Structural)]
pub enum FindError {
    /// Nothing matched.
    NotFound,
    /// More than one task matched a title.
    Ambiguous,
}

/// An ASCII decimal digit.
pub open spec fn is_ascii_digit(c: char) -> bool {
    0x30 <= (c as u32) <= 0x39
}

/// Every character is an ASCII decimal digit.
pub open spec fn all_digits(s: Seq<char>) -> bool {
    forall|i: int| 0 <= i < s.len() ==> is_ascii_digit(#[trigger] s[i])
}

/// The number a digit string denotes.
pub open spec fn digits_val(s: Seq<char>) -> int
    decreases s.len(),
{
    if s.len() == 0 {
        0
    } else {
        digits_val(s.drop_last()) * 10 + ((s.last() as u32) - 0x30)
    }
}

/// What `str::parse::<i64>` yields: an optional sign, then at least one
/// ASCII digit and nothing else, with the value in range; anything else is
/// rejected.
pub open spec fn parse_i64_spec(s: Seq<char>) -> Option<i64> {
    let neg = s.len() > 0 && s[0] == '-';
    let signed = s.len() > 0 && (s[0] == '-' || s[0] == '+');
    let ds = if signed {
        s.drop_first()
    } else {
        s
    };
    if ds.len() == 0 || !all_digits(ds) {
        None
    } else {
        let v = if neg {
            -digits_val(ds)
        } else {
            digits_val(ds)
        };
        if v < i64::MIN || v > i64::MAX {
            None
        } else {
            Some(v as i64)
        }
    }
}

proof fn lemma_digits_val_nonneg(s: Seq<char>)
    requires
        all_digits(s),
    ensures
        digits_val(s) >= 0,
    decreases s.len(),
{
    if s.len() > 0 {
        assert(all_digits(s.drop_last())) by {
            assert(forall|i: int|
                0 <= i < s.drop_last().len() ==> #[trigger] s.drop_last()[i] == s[i]);
        }
        lemma_digits_val_nonneg(s.drop_last());
    }
}

proof fn lemma_digits_val_prefix_le(s: Seq<char>, k: int)
    requires
        all_digits(s),
        0 <= k <= s.len(),
    ensures
        digits_val(s.take(k)) <= digits_val(s),
    decreases s.len() - k,
{
    if k < s.len() {
        assert(all_digits(s.take(k))) by {
            assert(forall|i: int| 0 <= i < k ==> #[trigger] s.take(k)[i] == s[i]);
        }
        lemma_digits_val_nonneg(s.take(k));
        assert(s.take(k + 1).drop_last() =~= s.take(k));
        assert(s.take(k + 1).last() == s[k]);
        lemma_digits_val_prefix_le(s, k + 1);
    } else {
        assert(s.take(k) =~= s);
    }
}

/// Parses an ASCII decimal integer exactly as `str::parse::<i64>` accepts
/// it.
pub fn parse_i64(s: &str) -> (r: Option<i64>)
    ensures
        r == parse_i64_spec(s@),
{
    let n = s.unicode_len();
    if n == 0 {
        return None;
    }
    let c0 = s.get_char(0);
    let neg = c0 == '-';
    let signed = c0 == '-' || c0 == '+';
    let start: usize = if signed {
        1
    } else {
        0
    };
    let ghost ds = if signed {
        s@.drop_first()
    } else {
        s@
    };
    proof {
        assert(forall|i: int| 0 <= i < ds.len() ==> #[trigger] ds[i] == s@[i + start]);
    }
    if start >= n {
        proof {
            assert(ds.len() == 0);
        }
        return None;
    }
    let mut acc: i128 = 0;
    let mut i: usize = start;
    while i < n
        invariant
            start <= i <= n,
            n == s@.len(),
            n >= 1,
            signed == (s@[0] == '-' || s@[0] == '+'),
            neg == (s@[0] == '-'),
            start == 1 <==> signed,
            start <= 1,
            ds == (if signed {
                s@.drop_first()
            } else {
                s@
            }),
            ds.len() == n - start,
            forall|j: int| 0 <= j < ds.len() ==> #[trigger] ds[j] == s@[j + start],
            all_digits(ds.take(i - start)),
            acc == digits_val(ds.take(i - start)),
            0 <= acc <= 0x8000_0000_0000_0000,
        decreases n - i,
    {
        let c = s.get_char(i);
        let cu = c as u32;
        if cu < 0x30 || cu > 0x39 {
            proof {
                assert(ds[i - start] == s@[i as int]);
                assert(!is_ascii_digit(ds[i - start]));
                assert(!all_digits(ds));
            }
            return None;
        }
        let d: i128 = (cu - 0x30) as i128;
        acc = acc * 10 + d;
        proof {
            assert(ds.take(i - start + 1).drop_last() =~= ds.take(i - start));
            assert(ds.take(i - start + 1).last() == ds[i - start]);
            assert(ds[i - start] == s@[i as int]);
            assert(all_digits(ds.take(i - start + 1)));
            assert(acc == digits_val(ds.take(i - start + 1)));
        }
        if acc > 0x8000_0000_0000_0000 {
            proof {
                if all_digits(ds) {
                    lemma_digits_val_prefix_le(ds, i - start + 1);
                }
            }
            return None;
        }
        i = i + 1;
    }
    proof {
        assert(ds.take(i - start) =~= ds);
    }
    if neg {
        Some((-acc) as i64)
    } else {
        if acc > 0x7fff_ffff_ffff_ffff {
            return None;
        }
        Some(acc as i64)
    }
}

/// An owned copy of a client-side task.
pub fn dup_client_task(t: &Task) -> (r: Task)
    ensures
        r == *t,
{
    Task {
        id: t.id,
        title: t.title.clone(),
        column_id: t.column_id,
        description: crate::model::dup_opt_string(&t.description),
    }
}

/// An owned copy of a client-side column.
pub fn dup_client_column(c: &Column) -> (r: Column)
    ensures
        r == *c,
{
    Column { id: c.id, name: c.name.clone(), sort_order: c.sort_order }
}

/// Whether a task answers to this title, compared after trimming and
/// lowercasing both sides.
pub open spec fn title_matches(t: Task, title: Seq<char>) -> bool {
    lower_of(trim_of(t.title@)) == lower_of(trim_of(title))
}

/// Whether a task answers to this title, compared after lowercasing both
/// sides (no trimming).
pub open spec fn title_matches_loosely(t: Task, title: Seq<char>) -> bool {
    lower_of(t.title@) == lower_of(title)
}

/// Whether a column answers to this name, compared after lowercasing both
/// sides.
pub open spec fn column_name_matches(c: Column, arg: Seq<char>) -> bool {
    lower_of(c.name@) == lower_of(arg)
}

/// The task with this title, selected case-insensitively after trimming.
/// No match is not-found; several matches are ambiguous, and the caller
/// must narrow the title.
pub fn find_task_by_title(tasks: &Vec<Task>, title: &str) -> (r: Result<Task, FindError>)
    ensures
        ({
            let m = tasks@.filter(|t: Task| title_matches(t, title@));
            match r {
                Ok(t) => m.len() == 1 && t == m[0],
                Err(e) => (e == FindError::NotFound && m.len() == 0) || (e == FindError::Ambiguous
                    && m.len() >= 2),
            }
        }),
{
    let key = lowercase(trimmed(title).as_str());
    let mut matches: Vec<Task> = Vec::new();
    let mut i: usize = 0;
    while i < tasks.len()
        invariant
            i <= tasks@.len(),
            key@ == lower_of(trim_of(title@)),
            matches@ == tasks@.take(i as int).filter(|t: Task| title_matches(t, title@)),
        decreases tasks@.len() - i,
    {
        proof {
            reveal_with_fuel(Seq::filter, 2);
            assert(tasks@.take(i + 1).drop_last() =~= tasks@.take(i as int));
            assert(tasks@.take(i + 1).last() == tasks@[i as int]);
        }
        let cand = lowercase(trimmed(tasks[i].title.as_str()).as_str());
        if cand == key {
            matches.push(dup_client_task(&tasks[i]));
        }
        i = i + 1;
    }
    proof {
        assert(tasks@.take(tasks@.len() as int) =~= tasks@);
    }
    if matches.len() == 0 {
        Err(FindError::NotFound)
    } else if matches.len() == 1 {
        let t = matches.remove(0);
        proof {
            assert(t == tasks@.filter(|t2: Task| title_matches(t2, title@))[0]);
        }
        Ok(t)
    } else {
        Err(FindError::Ambiguous)
    }
}

/// The tasks answering to this title, compared case-insensitively without
/// trimming — the looser match used when removing by title.
pub fn matching_tasks(tasks: &Vec<Task>, title: &str) -> (r: Vec<Task>)
    ensures
        r@ == tasks@.filter(|t: Task| title_matches_loosely(t, title@)),
{
    let key = lowercase(title);
    let mut matches: Vec<Task> = Vec::new();
    let mut i: usize = 0;
    while i < tasks.len()
        invariant
            i <= tasks@.len(),
            key@ == lower_of(title@),
            matches@ == tasks@.take(i as int).filter(|t: Task| title_matches_loosely(t, title@)),
        decreases tasks@.len() - i,
    {
        proof {
            reveal_with_fuel(Seq::filter, 2);
            assert(tasks@.take(i + 1).drop_last() =~= tasks@.take(i as int));
            assert(tasks@.take(i + 1).last() == tasks@[i as int]);
        }
        let cand = lowercase(tasks[i].title.as_str());
        if cand == key {
            matches.push(dup_client_task(&tasks[i]));
        }
        i = i + 1;
    }
    proof {
        assert(tasks@.take(tasks@.len() as int) =~= tasks@);
    }
    matches
}

/// The column named by an argument: a numeric argument selects by id, any
/// other by case-insensitive name.  The first match in board order wins;
/// none is not-found.
pub fn find_column_by_name_or_id(columns: &Vec<Column>, column_arg: &str) -> (r: Result<
    Column,
    FindError,
>)
    ensures
        match parse_i64_spec(column_arg@) {
            Some(id) => match r {
                Ok(c) => exists|i: int|
                    0 <= i < columns@.len() && c == #[trigger] columns@[i] && c.id == id && (forall|
                        j: int,
                    | 0 <= j < i ==> columns@[j].id != id),
                Err(e) => e == FindError::NotFound && (forall|i: int|
                    0 <= i < columns@.len() ==> (#[trigger] columns@[i]).id != id),
            },
            None => match r {
                Ok(c) => exists|i: int|
                    0 <= i < columns@.len() && c == #[trigger] columns@[i] && column_name_matches(
                        c,
                        column_arg@,
                    ) && (forall|j: int|
                        0 <= j < i ==> !column_name_matches(columns@[j], column_arg@)),
                Err(e) => e == FindError::NotFound && (forall|i: int|
                    0 <= i < columns@.len() ==> !column_name_matches(
                        #[trigger] columns@[i],
                        column_arg@,
                    )),
            },
        },
{
    match parse_i64(column_arg) {
        Some(id) => {
            let mut i: usize = 0;
            while i < columns.len()
                invariant
                    i <= columns@.len(),
                    parse_i64_spec(column_arg@) == Some(id),
                    forall|j: int| 0 <= j < i ==> (#[trigger] columns@[j]).id != id,
                decreases columns@.len() - i,
            {
                if columns[i].id == id {
                    let c = dup_client_column(&columns[i]);
                    proof {
                        assert(c == columns@[i as int]);
                    }
                    return Ok(c);
                }
                i = i + 1;
            }
            Err(FindError::NotFound)
        },
        None => {
            let key = lowercase(column_arg);
            let mut i: usize = 0;
            while i < columns.len()
                invariant
                    i <= columns@.len(),
                    parse_i64_spec(column_arg@) is None,
                    key@ == lower_of(column_arg@),
                    forall|j: int|
                        0 <= j < i ==> !column_name_matches(#[trigger] columns@[j], column_arg@),
                decreases columns@.len() - i,
            {
                let cand = lowercase(columns[i].name.as_str());
                if cand == key {
                    let c = dup_client_column(&columns[i]);
                    proof {
                        assert(c == columns@[i as int]);
                        assert(column_name_matches(c, column_arg@));
                    }
                    return Ok(c);
                }
                i = i + 1;
            }
            Err(FindError::NotFound)
        },
    }
}

/// The resolver query URL for a working directory, with the path (and the
/// hostname, when one is known) percent-encoded into the query string.
pub fn lookup_url(base_url: &str, path: &str, hostname: &Option<String>) -> (r: String)
    ensures
        r@ == base_url@ + "/api/linked-paths/lookup?path="@ + url_encoded(path.spec_bytes()) + (
        if (*hostname) is Some {
            "&hostname="@ + url_encoded(vstd::utf8::encode_utf8(((*hostname)->0)@))
        } else {
            Seq::<char>::empty()
        }),
{
    let mut url = base_url.to_owned();
    url.append("/api/linked-paths/lookup?path=");
    let ep = url_encode(path);
    url.append(ep.as_str());
    match hostname {
        Some(h) => {
            url.append("&hostname=");
            let eh = url_encode(h.as_str());
            url.append(eh.as_str());
            proof {
                assert(url@ =~= base_url@ + "/api/linked-paths/lookup?path="@ + url_encoded(
                    path.spec_bytes(),
                ) + ("&hostname="@ + url_encoded(vstd::utf8::encode_utf8(((*hostname)->0)@))));
            }
        },
        None => {
            proof {
                assert(url@ =~= base_url@ + "/api/linked-paths/lookup?path="@ + url_encoded(
                    path.spec_bytes(),
                ) + Seq::<char>::empty());
            }
        },
    }
    url
}

/// A new description after appending a note: a blank existing description
/// is replaced, anything else gains the note after a blank line.
pub fn appended_description(existing: &Option<String>, text: &str) -> (r: String)
    ensures
        r@ == (if (*existing) is Some && ((*existing)->0)@.len() > 0 {
            ((*existing)->0)@ + "\n\n"@ + text@
        } else {
            text@
        }),
{
    match existing {
        Some(e) => {
            if e.as_str().is_empty() {
                text.to_owned()
            } else {
                let mut out = e.clone();
                out.append("\n\n");
                out.append(text);
                proof {
                    assert(out@ =~= ((*existing)->0)@ + "\n\n"@ + text@);
                }
                out
            }
        },
        None => text.to_owned(),
    }
}

} // verus!
