//! The textual form of a search path: entries separated by the platform
//! path delimiter, and candidate paths formed by joining a directory entry
//! with a file name. The laws at the end of this module relate parsing and
//! serialization: a text without blank segments round-trips exactly, and
//! blank segments never influence what is parsed.

use vstd::prelude::*;

verus! {

/// The character separating entries in the textual form of a search path.
pub const PATH_DELIMITER: char = ':';

/// The character separating the components of a single path.
pub const COMPONENT_SEPARATOR: char = '/';

/// A whitespace character for the purpose of recognising blank segments.
pub open spec fn is_space(c: char) -> bool {
    c == ' ' || c == '\t' || c == '\n' || c == '\r'
}

/// A segment is blank when it holds nothing but whitespace; the empty
/// segment is blank.
pub open spec fn is_blank(s: Seq<char>) -> bool {
    forall|i: int| 0 <= i < s.len() ==> is_space(s[i])
}

/// The segments of a delimited text, blanks included: splitting on the
/// delimiter always yields one more segment than there are delimiters.
pub open spec fn split_segments(s: Seq<char>) -> Seq<Seq<char>>
    decreases s.len(),
{
    if s.len() == 0 {
        seq![Seq::<char>::empty()]
    } else if s.last() == PATH_DELIMITER {
        split_segments(s.drop_last()).push(Seq::<char>::empty())
    } else {
        let t = split_segments(s.drop_last());
        t.update(t.len() - 1, t.last().push(s.last()))
    }
}

/// The given segments with the blank ones dropped; the rest keep their
/// order.
pub open spec fn drop_blank(segs: Seq<Seq<char>>) -> Seq<Seq<char>>
    decreases segs.len(),
{
    if segs.len() == 0 {
        Seq::<Seq<char>>::empty()
    } else {
        let rest = drop_blank(segs.drop_last());
        if is_blank(segs.last()) {
            rest
        } else {
            rest.push(segs.last())
        }
    }
}

/// The entries parsed from a delimited text: its segments with the blank
/// ones dropped.
pub open spec fn parse_text(s: Seq<char>) -> Seq<Seq<char>> {
    drop_blank(split_segments(s))
}

/// The delimited text formed from a list of entries.
pub open spec fn join_entries(entries: Seq<Seq<char>>) -> Seq<char>
    decreases entries.len(),
{
    if entries.len() == 0 {
        Seq::<char>::empty()
    } else if entries.len() == 1 {
        entries[0]
    } else {
        join_entries(entries.drop_last()) + seq![PATH_DELIMITER] + entries.last()
    }
}

/// The candidate path formed by joining a directory entry with a name,
/// the way paths are pushed onto one another: an absolute name stands
/// alone, an empty directory contributes nothing, and otherwise the two
/// are joined with a single component separator.
pub open spec fn join_path(dir: Seq<char>, name: Seq<char>) -> Seq<char> {
    if name.len() > 0 && name[0] == COMPONENT_SEPARATOR {
        name
    } else if dir.len() == 0 {
        name
    } else if dir.last() == COMPONENT_SEPARATOR {
        dir + name
    } else {
        dir + seq![COMPONENT_SEPARATOR] + name
    }
}

/// The canonical current-directory entry, the single-dot relative path.
pub open spec fn current_dir_marker() -> Seq<char> {
    seq!['.']
}

/// Whether a name has a directory component, that is, whether path
/// decomposition would give it a non-empty parent.
pub open spec fn has_dir_component(name: Seq<char>) -> bool {
    exists|i: int| 0 <= i < name.len() && name[i] == COMPONENT_SEPARATOR
}

/// Join a directory entry and a name into a candidate path.
pub(crate) fn join_entry_with_name(dir: &String, name: &str) -> (r: String)
    ensures
        r@ == join_path(dir@, name@),
{
    let name_len = name.unicode_len();
    if name_len > 0 && name.get_char(0) == COMPONENT_SEPARATOR {
        return name.to_owned();
    }
    let dir_len = dir.as_str().unicode_len();
    if dir_len == 0 {
        return name.to_owned();
    }
    if dir.as_str().get_char(dir_len - 1) == COMPONENT_SEPARATOR {
        dir.clone().concat(name)
    } else {
        let r = dir.clone().concat("/").concat(name);
        proof {
            reveal_strlit("/");
            assert(dir@ + "/"@ + name@ =~= dir@ + seq![COMPONENT_SEPARATOR] + name@);
        }
        r
    }
}

/// Whether `name` has a directory component.
pub(crate) fn has_dir_component_exec(name: &str) -> (r: bool)
    ensures
        r == has_dir_component(name@),
{
    let n = name.unicode_len();
    let mut i: usize = 0;
    while i < n
        invariant
            0 <= i <= n,
            n == name@.len(),
            forall|j: int| 0 <= j < i ==> name@[j] != COMPONENT_SEPARATOR,
        decreases n - i,
    {
        if name.get_char(i) == COMPONENT_SEPARATOR {
            assert(name@[i as int] == COMPONENT_SEPARATOR);
            return true;
        }
        i += 1;
    }
    proof {
        if has_dir_component(name@) {
            let j = choose|j: int| 0 <= j < name@.len() && name@[j] == COMPONENT_SEPARATOR;
            assert(name@[j] != COMPONENT_SEPARATOR);
        }
    }
    false
}

/// Splitting never yields an empty list of segments.
pub proof fn lemma_split_segments_len(s: Seq<char>)
    ensures
        split_segments(s).len() >= 1,
    decreases s.len(),
{
    if s.len() > 0 {
        lemma_split_segments_len(s.drop_last());
    }
}

/// Whether every character of `s` is whitespace.
pub(crate) fn is_blank_str(s: &str) -> (r: bool)
    ensures
        r == is_blank(s@),
{
    let n = s.unicode_len();
    let mut i: usize = 0;
    while i < n
        invariant
            0 <= i <= n,
            n == s@.len(),
            forall|j: int| 0 <= j < i ==> is_space(s@[j]),
        decreases n - i,
    {
        let c = s.get_char(i);
        if !(c == ' ' || c == '\t' || c == '\n' || c == '\r') {
            assert(!is_space(s@[i as int]));
            return false;
        }
        i += 1;
    }
    true
}

/// Split a delimited text into its entries: the segments between
/// delimiters, in order, with the blank ones dropped.
pub(crate) fn split_text(s: &str) -> (r: Vec<String>)
    ensures
        r.deep_view() == parse_text(s@),
{
    let n = s.unicode_len();
    let mut out: Vec<String> = Vec::new();
    let mut start: usize = 0;
    let mut i: usize = 0;
    while i < n
        invariant
            0 <= start <= i <= n,
            n == s@.len(),
            split_segments(s@.take(i as int)).last() == s@.subrange(start as int, i as int),
            out.deep_view() == drop_blank(split_segments(s@.take(i as int)).drop_last()),
        decreases n - i,
    {
        proof {
            lemma_split_segments_len(s@.take(i as int));
            assert(s@.take(i as int + 1).drop_last() =~= s@.take(i as int));
        }
        let c = s.get_char(i);
        if c == PATH_DELIMITER {
            let segment = s.substring_char(start, i);
            proof {
                let t = split_segments(s@.take(i as int));
                assert(split_segments(s@.take(i as int + 1)) == t.push(Seq::<char>::empty()));
                assert(split_segments(s@.take(i as int + 1)).drop_last() =~= t);
                assert(t.drop_last().push(segment@) =~= t);
            }
            if !is_blank_str(segment) {
                let ghost old_out = out.deep_view();
                let entry = segment.to_owned();
                out.push(entry);
                proof {
                    assert(out.deep_view() =~= old_out.push(segment@));
                }
            }
            start = i + 1;
            proof {
                assert(split_segments(s@.take(i as int + 1)).last() =~= s@.subrange(
                    i as int + 1,
                    i as int + 1,
                ));
            }
        } else {
            proof {
                let t = split_segments(s@.take(i as int));
                let u = split_segments(s@.take(i as int + 1));
                assert(u == t.update(t.len() - 1, t.last().push(s@[i as int])));
                assert(u.drop_last() =~= t.drop_last());
                assert(u.last() =~= s@.subrange(start as int, i as int + 1));
            }
        }
        i += 1;
    }
    proof {
        lemma_split_segments_len(s@);
        assert(s@.take(n as int) =~= s@);
    }
    let segment = s.substring_char(start, n);
    proof {
        let t = split_segments(s@);
        assert(t.drop_last().push(segment@) =~= t);
    }
    if !is_blank_str(segment) {
        let ghost old_out = out.deep_view();
        let entry = segment.to_owned();
        out.push(entry);
        proof {
            assert(out.deep_view() =~= old_out.push(segment@));
        }
    }
    out
}

/// Joining one more entry appends one delimiter and the entry.
proof fn lemma_join_push(entries: Seq<Seq<char>>, x: Seq<char>)
    requires
        entries.len() >= 1,
    ensures
        join_entries(entries.push(x)) == join_entries(entries) + seq![PATH_DELIMITER] + x,
{
    assert(entries.push(x).drop_last() =~= entries);
    assert(entries.push(x).last() == x);
}

/// Joining the segments of a text with the delimiter restores the text.
proof fn lemma_join_split(s: Seq<char>)
    ensures
        join_entries(split_segments(s)) == s,
    decreases s.len(),
{
    if s.len() == 0 {
        assert(join_entries(split_segments(s)) =~= s);
    } else {
        let d = s.drop_last();
        lemma_join_split(d);
        lemma_split_segments_len(d);
        let t = split_segments(d);
        if s.last() == PATH_DELIMITER {
            lemma_join_push(t, Seq::<char>::empty());
            assert(d + seq![PATH_DELIMITER] + Seq::<char>::empty() =~= s);
        } else {
            let u = t.update(t.len() - 1, t.last().push(s.last()));
            if t.len() == 1 {
                assert(join_entries(u) == u[0]);
                assert(u[0] =~= t[0].push(s.last()));
                assert(join_entries(t) == t[0]);
                assert(t[0].push(s.last()) =~= s);
            } else {
                assert(u.drop_last() =~= t.drop_last());
                assert(u.last() == t.last().push(s.last()));
                assert(join_entries(u) == join_entries(t.drop_last()) + seq![PATH_DELIMITER]
                    + t.last().push(s.last()));
                assert(join_entries(t) == join_entries(t.drop_last()) + seq![PATH_DELIMITER]
                    + t.last());
                assert(join_entries(t.drop_last()) + seq![PATH_DELIMITER] + t.last().push(s.last())
                    =~= (join_entries(t.drop_last()) + seq![PATH_DELIMITER] + t.last()).push(
                    s.last(),
                ));
                assert(d.push(s.last()) =~= s);
            }
        }
    }
}

/// Dropping blanks from a list without blanks changes nothing.
proof fn lemma_drop_blank_all_kept(segs: Seq<Seq<char>>)
    requires
        forall|k: int| 0 <= k < segs.len() ==> !is_blank(#[trigger] segs[k]),
    ensures
        drop_blank(segs) == segs,
    decreases segs.len(),
{
    if segs.len() == 0 {
        assert(drop_blank(segs) =~= segs);
    } else {
        lemma_drop_blank_all_kept(segs.drop_last());
        assert(!is_blank(segs[segs.len() - 1]));
        assert(drop_blank(segs) =~= segs);
    }
}

/// Law: a delimited text without blank segments round-trips exactly:
/// parsing it and serializing the parsed entries yields the original
/// text.
pub proof fn lemma_text_round_trip(s: Seq<char>)
    requires
        forall|k: int|
            0 <= k < split_segments(s).len() ==> !is_blank(#[trigger] split_segments(s)[k]),
    ensures
        join_entries(parse_text(s)) == s,
{
    lemma_drop_blank_all_kept(split_segments(s));
    lemma_join_split(s);
}

/// A text without delimiters is one single segment.
proof fn lemma_split_no_delimiter(s: Seq<char>)
    requires
        forall|i: int| 0 <= i < s.len() ==> s[i] != PATH_DELIMITER,
    ensures
        split_segments(s) == seq![s],
    decreases s.len(),
{
    if s.len() == 0 {
        assert(s =~= Seq::<char>::empty());
        assert(split_segments(s) =~= seq![s]);
    } else {
        let d = s.drop_last();
        lemma_split_no_delimiter(d);
        assert(s[s.len() - 1] != PATH_DELIMITER);
        let t = split_segments(d);
        assert(t.update(t.len() - 1, t.last().push(s.last())) =~= seq![d.push(s.last())]);
        assert(d.push(s.last()) =~= s);
    }
}

/// Splitting a text extended by a delimiter and a delimiter-free tail
/// appends the tail as one more segment.
proof fn lemma_split_append(a: Seq<char>, b: Seq<char>)
    requires
        forall|i: int| 0 <= i < b.len() ==> b[i] != PATH_DELIMITER,
    ensures
        split_segments(a + seq![PATH_DELIMITER] + b) == split_segments(a).push(b),
    decreases b.len(),
{
    let s = a + seq![PATH_DELIMITER] + b;
    if b.len() == 0 {
        assert(s =~= a.push(PATH_DELIMITER));
        assert(s.drop_last() =~= a);
        assert(s.last() == PATH_DELIMITER);
        assert(split_segments(s) == split_segments(a).push(Seq::<char>::empty()));
        assert(b =~= Seq::<char>::empty());
        assert(split_segments(a).push(Seq::<char>::empty()) =~= split_segments(a).push(b));
    } else {
        lemma_split_append(a, b.drop_last());
        lemma_split_segments_len(a);
        assert(s.drop_last() =~= a + seq![PATH_DELIMITER] + b.drop_last());
        assert(s.last() == b[b.len() - 1]);
        assert(s.last() != PATH_DELIMITER);
        let t = split_segments(a).push(b.drop_last());
        assert(split_segments(s) == t.update(t.len() - 1, t.last().push(s.last())));
        assert(t.last().push(s.last()) =~= b);
        assert(t.update(t.len() - 1, b) =~= split_segments(a).push(b));
    }
}

/// Every segment of a split is free of the delimiter.
proof fn lemma_segments_no_delimiter(s: Seq<char>)
    ensures
        forall|k: int, i: int|
            0 <= k < split_segments(s).len() && 0 <= i < split_segments(s)[k].len()
                ==> #[trigger] split_segments(s)[k][i] != PATH_DELIMITER,
    decreases s.len(),
{
    if s.len() > 0 {
        lemma_segments_no_delimiter(s.drop_last());
        let t = split_segments(s.drop_last());
        lemma_split_segments_len(s.drop_last());
        if s.last() != PATH_DELIMITER {
            let u = t.update(t.len() - 1, t.last().push(s.last()));
            assert forall|k: int, i: int|
                0 <= k < u.len() && 0 <= i < u[k].len() implies #[trigger] u[k][i]
                != PATH_DELIMITER by {
                if k == u.len() - 1 {
                    if i < t.last().len() {
                        assert(t[k][i] != PATH_DELIMITER);
                    }
                } else {
                    assert(t[k][i] != PATH_DELIMITER);
                }
            }
        }
    }
}

/// What survives the dropping of blanks is a non-blank element of the
/// original list.
proof fn lemma_drop_blank_elements(segs: Seq<Seq<char>>)
    ensures
        forall|k: int| #![trigger drop_blank(segs)[k]]
            0 <= k < drop_blank(segs).len() ==> !is_blank(drop_blank(segs)[k]) && segs.contains(
                drop_blank(segs)[k],
            ),
    decreases segs.len(),
{
    if segs.len() > 0 {
        let t = segs.drop_last();
        lemma_drop_blank_elements(t);
        assert forall|k: int| #![trigger drop_blank(segs)[k]]
            0 <= k < drop_blank(segs).len() implies !is_blank(drop_blank(segs)[k])
            && segs.contains(drop_blank(segs)[k]) by {
            if k < drop_blank(t).len() {
                assert(drop_blank(segs)[k] == drop_blank(t)[k]);
                assert(t.contains(drop_blank(t)[k]));
                let i = choose|i: int| 0 <= i < t.len() && t[i] == drop_blank(t)[k];
                assert(segs[i] == drop_blank(segs)[k]);
            } else {
                assert(drop_blank(segs)[k] == segs.last());
                assert(segs[segs.len() - 1] == segs.last());
            }
        }
    }
}

/// Law: serializing entries that are non-blank and free of the delimiter,
/// and parsing the text back, restores the entries exactly.
pub proof fn lemma_parse_of_serialized(entries: Seq<Seq<char>>)
    requires
        forall|k: int| #![trigger entries[k]]
            0 <= k < entries.len() ==> !is_blank(entries[k]) && (forall|i: int|
                0 <= i < entries[k].len() ==> entries[k][i] != PATH_DELIMITER),
    ensures
        parse_text(join_entries(entries)) == entries,
    decreases entries.len(),
{
    if entries.len() == 0 {
        assert(join_entries(entries) =~= Seq::<char>::empty());
        assert(split_segments(Seq::<char>::empty()) == seq![Seq::<char>::empty()]);
        assert(is_blank(Seq::<char>::empty()));
        assert(seq![Seq::<char>::empty()].drop_last() =~= Seq::<Seq<char>>::empty());
        assert(drop_blank(Seq::<Seq<char>>::empty()) =~= Seq::<Seq<char>>::empty());
        assert(parse_text(join_entries(entries)) =~= entries);
    } else if entries.len() == 1 {
        assert(join_entries(entries) == entries[0]);
        assert(forall|i: int| 0 <= i < entries[0].len() ==> entries[0][i] != PATH_DELIMITER);
        lemma_split_no_delimiter(entries[0]);
        assert(seq![entries[0]].drop_last() =~= Seq::<Seq<char>>::empty());
        assert(drop_blank(Seq::<Seq<char>>::empty()) =~= Seq::<Seq<char>>::empty());
        assert(!is_blank(entries[0]));
        assert(parse_text(entries[0]) =~= entries);
    } else {
        let front = entries.drop_last();
        let b = entries.last();
        assert(forall|k: int| #![trigger front[k]]
            0 <= k < front.len() ==> !is_blank(front[k]) && (forall|i: int|
                0 <= i < front[k].len() ==> front[k][i] != PATH_DELIMITER));
        lemma_parse_of_serialized(front);
        assert(entries[entries.len() - 1] == b);
        assert(forall|i: int| 0 <= i < b.len() ==> b[i] != PATH_DELIMITER);
        lemma_split_append(join_entries(front), b);
        let q = split_segments(join_entries(front));
        assert(split_segments(join_entries(entries)) == q.push(b));
        assert(q.push(b).drop_last() =~= q);
        assert(!is_blank(b));
        assert(parse_text(join_entries(entries)) == drop_blank(q).push(b));
        assert(drop_blank(q).push(b) =~= entries);
    }
}

/// Law: blank segments never matter: any delimited text parses to the
/// same entries as the text rebuilt from those entries, in which every
/// blank segment has been removed.
pub proof fn lemma_blank_segments_ignored(s: Seq<char>)
    ensures
        parse_text(join_entries(parse_text(s))) == parse_text(s),
{
    lemma_segments_no_delimiter(s);
    lemma_drop_blank_elements(split_segments(s));
    let entries = parse_text(s);
    assert forall|k: int| #![trigger entries[k]]
        0 <= k < entries.len() implies !is_blank(entries[k]) && (forall|i: int|
        0 <= i < entries[k].len() ==> entries[k][i] != PATH_DELIMITER) by {
        assert(split_segments(s).contains(entries[k]));
        let j = choose|j: int|
            0 <= j < split_segments(s).len() && split_segments(s)[j] == entries[k];
        assert(forall|i: int|
            0 <= i < split_segments(s)[j].len() ==> #[trigger] split_segments(s)[j][i]
                != PATH_DELIMITER);
    }
    lemma_parse_of_serialized(entries);
}

} // verus!
