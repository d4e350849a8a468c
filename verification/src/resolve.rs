//! Reading what the user typed for a project or for labels, and the small pieces of
//! wording the messages about edits share.
use crate::label_forms::{first_where, fold_match, label_views, lemma_first_where_is, same_title, texts};
use crate::models::{Label, LabelView, Project};
use crate::plain::{all_digits, digit_of, digits_value, lemma_value_grows};
use crate::text::{chars_of, eq_fold, eq_ignore_case, string_of, trim, trimmed};
use vstd::prelude::*;

verus! {

/// The label names a comma-separated field asks for: each piece between commas, trimmed,
/// with the empty ones dropped so a trailing comma is not a label called "".
pub open spec fn names_in(field: Seq<char>) -> Seq<Seq<char>> {
    crate::plain::nonblank(crate::rows::split_on(field, ','))
}

/// The label names an edit form's Labels field asks for.
pub fn label_names(field: &str) -> (names: Vec<String>)
    ensures
        texts(names@) == names_in(field@),
{
    let chars = chars_of(field);
    let pieces = crate::rows::split_chars(chars.as_slice(), ',');
    let ghost pv = crate::rows::char_rows(pieces@);
    let mut names: Vec<String> = Vec::new();
    let mut i: usize = 0;
    while i < pieces.len()
        invariant
            i <= pieces@.len(),
            pv == crate::rows::char_rows(pieces@),
            texts(names@) == crate::plain::nonblank(pv.take(i as int)),
        decreases pieces.len() - i,
    {
        proof {
            assert(pv.take(i + 1).drop_last() =~= pv.take(i as int));
        }
        let t = trim(pieces[i].as_slice());
        if t.len() > 0 {
            let ghost before = names@;
            names.push(string_of(t.as_slice()));
            proof {
                assert(texts(names@) =~= texts(before).push(t@));
            }
        }
        i += 1;
    }
    proof {
        assert(pv.take(i as int) =~= pv);
    }
    names
}

/// The ending a count takes: none for one, `s` for any other number.
pub fn plural(count: usize) -> (s: &'static str)
    ensures
        s@ == if count == 1 {
            ""@
        } else {
            "s"@
        },
{
    if count == 1 {
        ""
    } else {
        "s"
    }
}

/// A title short enough to sit in a message beside other words: cut to 40 cells.
pub fn truncated(title: &str) -> (s: String)
    ensures
        s@ == crate::rows::truncated(title@, 40),
{
    crate::rows::truncate(title, 40)
}

/// An `i64` read from `s` as `str::parse` reads it: an optional sign, then at least one
/// decimal digit and nothing else, with a value that fits.
pub open spec fn parsed_i64(s: Seq<char>) -> Option<i64> {
    let negative = s.len() > 0 && s[0] == '-';
    let ds = if s.len() > 0 && (s[0] == '+' || s[0] == '-') {
        s.skip(1)
    } else {
        s
    };
    let value = if negative {
        -digits_value(ds, 10)
    } else {
        digits_value(ds, 10)
    };
    if ds.len() == 0 || !all_digits(ds, 10) || value < i64::MIN || value > i64::MAX {
        None
    } else {
        Some(value as i64)
    }
}

/// Read an `i64` from `s` as `str::parse` does.
pub(crate) fn parse_i64(s: &[char]) -> (r: Option<i64>)
    ensures
        r == parsed_i64(s@),
{
    let negative = s.len() > 0 && s[0] == '-';
    let start: usize = if s.len() > 0 && (s[0] == '+' || s[0] == '-') { 1 } else { 0 };
    let ghost ds = if s@.len() > 0 && (s@[0] == '+' || s@[0] == '-') { s@.skip(1) } else { s@ };
    assert(ds =~= s@.subrange(start as int, s@.len() as int));
    if s.len() - start == 0 {
        return None;
    }
    // The magnitude, which may reach one past `i64::MAX` for the most negative number.
    let limit: u64 = 9_223_372_036_854_775_808;
    let mut value: u64 = 0;
    let mut i = start;
    while i < s.len()
        invariant
            start <= i <= s@.len(),
            ds == s@.subrange(start as int, s@.len() as int),
            ds == (if s@.len() > 0 && (s@[0] == '+' || s@[0] == '-') { s@.skip(1) } else { s@ }),
            negative == (s@.len() > 0 && s@[0] == '-'),
            limit == 9_223_372_036_854_775_808u64,
            all_digits(s@.subrange(start as int, i as int), 10),
            value == digits_value(s@.subrange(start as int, i as int), 10),
            value <= limit,
        decreases s.len() - i,
    {
        let ghost prefix = s@.subrange(start as int, i + 1);
        proof {
            assert(prefix.drop_last() =~= s@.subrange(start as int, i as int));
        }
        let c = s[i];
        if !('0' <= c && c <= '9') {
            proof {
                assert(ds[i - start] == s@[i as int]);
                assert(digit_of(ds[i - start], 10) is None);
            }
            return None;
        }
        let d: u64 = (c as u32 - '0' as u32) as u64;
        proof {
            assert forall|k: int| 0 <= k < prefix.len() implies #[trigger] digit_of(prefix[k], 10)
                is Some by {
                if k < prefix.len() - 1 {
                    assert(prefix[k] == s@.subrange(start as int, i as int)[k]);
                }
            }
            assert(digits_value(prefix, 10) == value * 10 + d);
        }
        if value > (limit - d) / 10 {
            proof {
                assert(value * 10 + d > limit) by (nonlinear_arith)
                    requires
                        value > (limit - d) / 10,
                        d <= 9,
                        limit >= 9,
                ;
                assert(ds.take(i + 1 - start) =~= prefix);
                lemma_value_grows(ds, (i + 1 - start) as int, 10, limit as int);
            }
            return None;
        }
        proof {
            assert(value * 10 + d <= limit) by (nonlinear_arith)
                requires
                    value <= (limit - d) / 10,
                    d <= 9,
            ;
        }
        value = value * 10 + d;
        i += 1;
    }
    assert(s@.subrange(start as int, i as int) =~= ds);
    if negative {
        if value == limit {
            Some(i64::MIN)
        } else {
            Some(-(value as i64))
        }
    } else if value > i64::MAX as u64 {
        None
    } else {
        Some(value as i64)
    }
}

/// Whether a reference may name a project: a real one, not one of the server's
/// pseudo-projects, and not archived unless `archived_ok`.
pub open spec fn nameable(p: Project, archived_ok: bool) -> bool {
    p.id > 0 && (archived_ok || !p.is_archived)
}

/// Whether a project may be named and has the id `id`.
pub open spec fn nameable_with_id(id: i64, archived_ok: bool) -> spec_fn(Project) -> bool {
    |p: Project| nameable(p, archived_ok) && p.id == id
}

/// Whether a project may be named and is titled `title`, ignoring ASCII case.
pub open spec fn nameable_titled(title: Seq<char>, archived_ok: bool) -> spec_fn(Project) -> bool {
    |p: Project| nameable(p, archived_ok) && eq_fold(p.title@, title)
}

/// The project a trimmed reference `s` names: `#12` by its id when a project that may be
/// named has that id, and otherwise the first such project titled `s`, ignoring ASCII case.
pub open spec fn named_in(projects: Seq<Project>, s: Seq<char>, archived_ok: bool) -> Option<i64> {
    let by_id = if s.len() > 0 && s[0] == '#' {
        match parsed_i64(s.skip(1)) {
            Some(id) => first_where(projects, nameable_with_id(id, archived_ok)),
            None => projects.len() as int,
        }
    } else {
        projects.len() as int
    };
    let by_title = first_where(projects, nameable_titled(s, archived_ok));
    if by_id < projects.len() {
        Some(projects[by_id].id)
    } else if by_title < projects.len() {
        Some(projects[by_title].id)
    } else {
        None
    }
}

/// The project a reference names, among those the user can write to: real and not
/// archived.
pub open spec fn resolved_project(projects: Seq<Project>, spec: Seq<char>) -> Option<i64> {
    named_in(projects, trimmed(spec), false)
}

/// The project the trimmed reference `s` names.
pub(crate) fn named(projects: &Vec<Project>, s: &[char], archived_ok: bool) -> (r: Option<i64>)
    ensures
        r == named_in(projects@, s@, archived_ok),
{
    let mut by_id: usize = projects.len();
    if s.len() > 0 && s[0] == '#' {
        let digits = crate::text::slice_to_vec(s, 1, s.len());
        assert(digits@ =~= s@.skip(1));
        if let Some(id) = parse_i64(digits.as_slice()) {
            let mut i: usize = 0;
            while i < projects.len()
                invariant
                    i <= projects@.len(),
                    forall|k: int|
                        0 <= k < i ==> !nameable_with_id(id, archived_ok)(#[trigger] projects@[k]),
                ensures
                    i <= projects@.len(),
                    forall|k: int|
                        0 <= k < i ==> !nameable_with_id(id, archived_ok)(#[trigger] projects@[k]),
                    i < projects@.len() ==> nameable_with_id(id, archived_ok)(projects@[i as int]),
                decreases projects.len() - i,
            {
                let p = &projects[i];
                if p.id > 0 && (archived_ok || !p.is_archived) && p.id == id {
                    break;
                }
                i += 1;
            }
            proof {
                lemma_first_where_is(projects@, nameable_with_id(id, archived_ok), i as int);
            }
            by_id = i;
        }
    }
    if by_id < projects.len() {
        return Some(projects[by_id].id);
    }
    let mut j: usize = 0;
    while j < projects.len()
        invariant
            j <= projects@.len(),
            forall|k: int| 0 <= k < j ==> !nameable_titled(s@, archived_ok)(#[trigger] projects@[k]),
        ensures
            j <= projects@.len(),
            forall|k: int| 0 <= k < j ==> !nameable_titled(s@, archived_ok)(#[trigger] projects@[k]),
            j < projects@.len() ==> nameable_titled(s@, archived_ok)(projects@[j as int]),
        decreases projects.len() - j,
    {
        let p = &projects[j];
        if p.id > 0 && (archived_ok || !p.is_archived) {
            let title = chars_of(p.title.as_str());
            if eq_ignore_case(title.as_slice(), s) {
                break;
            }
        }
        j += 1;
    }
    proof {
        lemma_first_where_is(projects@, nameable_titled(s@, archived_ok), j as int);
    }
    if j < projects.len() {
        Some(projects[j].id)
    } else {
        None
    }
}

/// Resolve a project reference: `#12` by id, otherwise by title.
///
/// Wherever a project can be written: the edit form's project field, quick-add's `+#12`,
/// and the configured default project. A reference that looks like an id but names no
/// project falls through to the title match, so a project genuinely called `#12` is still
/// reachable.
pub fn resolve_project(projects: &Vec<Project>, spec: &str) -> (r: Option<i64>)
    ensures
        r == resolved_project(projects@, spec@),
{
    let chars = chars_of(spec);
    let s = trim(chars.as_slice());
    named(projects, s.as_slice(), false)
}

/// Whether a label is titled `title`, ignoring ASCII case.
pub open spec fn label_titled(title: Seq<char>) -> spec_fn(LabelView) -> bool {
    |l: LabelView| eq_fold(l.title, title)
}

/// Labels matched by name, and the names that match none.
///
/// Each wanted name is trimmed and compared with the known titles ignoring ASCII case; the
/// first label so titled is found. A name that matches nothing is missing, once: a second
/// spelling of a name already missing, equal ignoring ASCII case, is not added again, and
/// the first spelling, as typed, is the one kept.
pub open spec fn resolved_labels(known: Seq<LabelView>, wanted: Seq<Seq<char>>) -> (
    Seq<LabelView>,
    Seq<Seq<char>>,
)
    decreases wanted.len(),
{
    if wanted.len() == 0 {
        (Seq::empty(), Seq::empty())
    } else {
        let (found, missing) = resolved_labels(known, wanted.drop_last());
        let name = wanted.last();
        let t = trimmed(name);
        let k = first_where(known, label_titled(t));
        if k < known.len() {
            (found.push(known[k]), missing)
        } else if fold_match(missing, t) < missing.len() {
            (found, missing)
        } else {
            (found, missing.push(name))
        }
    }
}

/// Match label names against the labels that exist, and report the names that do not.
pub fn resolve_labels(known: &Vec<Label>, wanted: &Vec<String>) -> (r: (Vec<Label>, Vec<String>))
    ensures
        (label_views(r.0@), texts(r.1@)) == resolved_labels(label_views(known@), texts(wanted@)),
{
    let ghost kv = label_views(known@);
    let ghost wv = texts(wanted@);
    let mut found: Vec<Label> = Vec::new();
    let mut missing: Vec<String> = Vec::new();
    let mut i: usize = 0;
    while i < wanted.len()
        invariant
            i <= wanted@.len(),
            kv == label_views(known@),
            wv == texts(wanted@),
            (label_views(found@), texts(missing@)) == resolved_labels(kv, wv.take(i as int)),
        decreases wanted.len() - i,
    {
        proof {
            assert(wv.take(i + 1).drop_last() =~= wv.take(i as int));
        }
        let name_chars = chars_of(wanted[i].as_str());
        let t = trim(name_chars.as_slice());
        let mut k: usize = 0;
        while k < known.len()
            invariant
                k <= known@.len(),
                kv == label_views(known@),
                forall|j: int| 0 <= j < k ==> !label_titled(t@)(#[trigger] kv[j]),
            ensures
                k <= known@.len(),
                forall|j: int| 0 <= j < k ==> !label_titled(t@)(#[trigger] kv[j]),
                k < known@.len() ==> label_titled(t@)(kv[k as int]),
            decreases known.len() - k,
        {
            let title = chars_of(known[k].title.as_str());
            if eq_ignore_case(title.as_slice(), t.as_slice()) {
                break;
            }
            k += 1;
        }
        proof {
            lemma_first_where_is(kv, label_titled(t@), k as int);
        }
        if k < known.len() {
            let ghost before = found@;
            found.push(known[k].duplicate());
            proof {
                assert(label_views(found@) =~= label_views(before).push(kv[k as int]));
            }
        } else {
            let ghost mv = texts(missing@);
            let mut m: usize = 0;
            while m < missing.len()
                invariant
                    m <= missing@.len(),
                    mv == texts(missing@),
                    forall|j: int| 0 <= j < m ==> !same_title(t@)(#[trigger] mv[j]),
                ensures
                    m <= missing@.len(),
                    forall|j: int| 0 <= j < m ==> !same_title(t@)(#[trigger] mv[j]),
                    m < missing@.len() ==> same_title(t@)(mv[m as int]),
                decreases missing.len() - m,
            {
                let seen = chars_of(missing[m].as_str());
                if eq_ignore_case(seen.as_slice(), t.as_slice()) {
                    break;
                }
                m += 1;
            }
            proof {
                lemma_first_where_is(mv, same_title(t@), m as int);
            }
            if m == missing.len() {
                missing.push(wanted[i].clone());
                proof {
                    assert(texts(missing@) =~= mv.push(wv[i as int]));
                }
            }
        }
        i += 1;
    }
    proof {
        assert(wv.take(i as int) =~= wv);
    }
    (found, missing)
}

/// A name that matches no label is asked about once: no two of the names left missing
/// are the same ignoring ASCII case once the later one is trimmed, so two spellings of one
/// typo cannot become two new labels; and none of them matches a label that exists.
pub proof fn law_a_missing_name_is_asked_about_once(known: Seq<LabelView>, wanted: Seq<Seq<char>>)
    ensures
        forall|i: int, j: int|
            0 <= i < j < resolved_labels(known, wanted).1.len() ==> !eq_fold(
                #[trigger] resolved_labels(known, wanted).1[i],
                trimmed(#[trigger] resolved_labels(known, wanted).1[j]),
            ),
        forall|j: int|
            0 <= j < resolved_labels(known, wanted).1.len() ==> first_where(
                known,
                label_titled(trimmed(#[trigger] resolved_labels(known, wanted).1[j])),
            ) == known.len(),
    decreases wanted.len(),
{
    if wanted.len() > 0 {
        law_a_missing_name_is_asked_about_once(known, wanted.drop_last());
        let (found, missing) = resolved_labels(known, wanted.drop_last());
        let name = wanted.last();
        let t = trimmed(name);
        let k = first_where(known, label_titled(t));
        crate::label_forms::lemma_first_where(known, label_titled(t));
        if k >= known.len() && fold_match(missing, t) >= missing.len() {
            let m2 = missing.push(name);
            assert(resolved_labels(known, wanted).1 == m2);
            crate::label_forms::lemma_first_where(missing, same_title(t));
            assert forall|i: int, j: int| 0 <= i < j < m2.len() implies !eq_fold(
                #[trigger] m2[i],
                trimmed(#[trigger] m2[j]),
            ) by {
                if j == m2.len() - 1 {
                    assert(m2[j] == name);
                    assert(m2[i] == missing[i]);
                    assert(!same_title(t)(missing[i]));
                } else {
                    assert(m2[i] == missing[i]);
                    assert(m2[j] == missing[j]);
                }
            }
            assert forall|j: int| 0 <= j < m2.len() implies first_where(
                known,
                label_titled(trimmed(#[trigger] m2[j])),
            ) == known.len() by {
                if j < m2.len() - 1 {
                    assert(m2[j] == missing[j]);
                }
            }
        }
    }
}

} // verus!
