//! The status document: a JSON object mapping each output path, verbatim, to
//! that shard's counters, with the outer keys in lexicographic byte order.
//!
//! Paths are handled as byte strings; bytes that JSON cannot carry bare in a
//! string (quote, backslash, controls) are escaped, everything else passes
//! through unchanged.

use vstd::prelude::*;

use crate::stats::Stats;

verus! {

/// `"` — begins and ends a JSON string.
pub const QUOTE: u8 = 34;

/// `\` — the JSON escape character.
pub const BACKSLASH: u8 = 92;

/// `,` — separates members of a JSON object.
pub const COMMA: u8 = 44;

/// `:` — separates a key from its value.
pub const COLON: u8 = 58;

/// `{` — opens a JSON object.
pub const LBRACE: u8 = 123;

/// `}` — closes a JSON object.
pub const RBRACE: u8 = 125;

/// The line feed that ends the document.
pub const NEWLINE: u8 = 10;

/// Lexicographic order on byte strings: the empty string first, then by the
/// first differing byte.
pub open spec fn spec_lex_le(a: Seq<u8>, b: Seq<u8>) -> bool
    decreases a.len(),
{
    if a.len() == 0 {
        true
    } else if b.len() == 0 {
        false
    } else if a[0] < b[0] {
        true
    } else if a[0] > b[0] {
        false
    } else {
        spec_lex_le(a.drop_first(), b.drop_first())
    }
}

/// Compares two byte strings lexicographically.
pub fn lex_le(a: &Vec<u8>, b: &Vec<u8>) -> (r: bool)
    ensures
        r == spec_lex_le(a@, b@),
{
    let mut i: usize = 0;
    proof {
        assert(a@.skip(0) =~= a@);
        assert(b@.skip(0) =~= b@);
    }
    loop
        invariant
            i <= a@.len(),
            i <= b@.len(),
            spec_lex_le(a@, b@) == spec_lex_le(a@.skip(i as int), b@.skip(i as int)),
        decreases a@.len() - i,
    {
        if i >= a.len() {
            return true;
        }
        if i >= b.len() {
            return false;
        }
        let x = a[i];
        let y = b[i];
        if x < y {
            return true;
        }
        if x > y {
            return false;
        }
        proof {
            assert(a@.skip(i as int).drop_first() =~= a@.skip(i as int + 1));
            assert(b@.skip(i as int).drop_first() =~= b@.skip(i as int + 1));
        }
        i = i + 1;
    }
}

/// The decimal digits of `m`, most significant first.
pub open spec fn spec_decimal(m: nat) -> Seq<u8>
    decreases m,
{
    if m < 10 {
        seq![(48 + m) as u8]
    } else {
        spec_decimal(m / 10).push((48 + m % 10) as u8)
    }
}

/// Appends the decimal digits of `m`.
fn push_decimal(out: &mut Vec<u8>, m: usize)
    ensures
        final(out)@ == old(out)@ + spec_decimal(m as nat),
    decreases m,
{
    if m < 10 {
        out.push(48 + m as u8);
        proof {
            assert(final(out)@ =~= old(out)@ + spec_decimal(m as nat));
        }
    } else {
        push_decimal(out, m / 10);
        out.push(48 + (m % 10) as u8);
        proof {
            assert(final(out)@ =~= old(out)@ + spec_decimal(m as nat));
        }
    }
}

/// A hexadecimal digit, lower case.
pub open spec fn spec_hex_digit(v: u8) -> u8
    recommends
        v < 16,
{
    if v < 10 {
        (48 + v) as u8
    } else {
        (87 + v) as u8
    }
}

fn hex_digit(v: u8) -> (r: u8)
    requires
        v < 16,
    ensures
        r == spec_hex_digit(v),
{
    if v < 10 {
        48 + v
    } else {
        87 + v
    }
}

/// How one byte of a path appears inside a JSON string: quote and backslash
/// get a backslash escape, control bytes a `\u00..` escape, the rest pass
/// through.
pub open spec fn spec_escape_byte(b: u8) -> Seq<u8> {
    if b == QUOTE || b == BACKSLASH {
        seq![BACKSLASH, b]
    } else if b < 32 {
        seq![BACKSLASH, 117u8, 48u8, 48u8, spec_hex_digit(b / 16), spec_hex_digit(b % 16)]
    } else {
        seq![b]
    }
}

/// A whole path escaped for a JSON string.
pub open spec fn spec_escape(p: Seq<u8>) -> Seq<u8>
    decreases p.len(),
{
    if p.len() == 0 {
        Seq::<u8>::empty()
    } else {
        spec_escape_byte(p[0]) + spec_escape(p.drop_first())
    }
}

proof fn lemma_escape_snoc(p: Seq<u8>, b: u8)
    ensures
        spec_escape(p.push(b)) == spec_escape(p) + spec_escape_byte(b),
    decreases p.len(),
{
    if p.len() == 0 {
        assert(p.push(b)[0] == b);
        assert(p.push(b).drop_first() =~= Seq::<u8>::empty());
        assert(spec_escape(p.push(b)) == spec_escape_byte(b) + spec_escape(Seq::<u8>::empty()));
        assert(spec_escape(p.push(b)) =~= spec_escape(p) + spec_escape_byte(b));
    } else {
        assert(p.push(b)[0] == p[0]);
        assert(p.push(b).drop_first() =~= p.drop_first().push(b));
        assert(spec_escape(p.push(b)) == spec_escape_byte(p[0]) + spec_escape(
            p.drop_first().push(b),
        ));
        lemma_escape_snoc(p.drop_first(), b);
        assert(spec_escape(p.push(b)) =~= spec_escape(p) + spec_escape_byte(b));
    }
}

/// Appends the escaped bytes of `p`.
fn push_escaped(out: &mut Vec<u8>, p: &Vec<u8>)
    ensures
        final(out)@ == old(out)@ + spec_escape(p@),
{
    let mut i: usize = 0;
    while i < p.len()
        invariant
            i <= p@.len(),
            out@ == old(out)@ + spec_escape(p@.take(i as int)),
        decreases p@.len() - i,
    {
        let b = p[i];
        proof {
            assert(p@.take(i as int + 1) =~= p@.take(i as int).push(b));
            lemma_escape_snoc(p@.take(i as int), b);
        }
        if b == QUOTE || b == BACKSLASH {
            out.push(BACKSLASH);
            out.push(b);
        } else if b < 32 {
            out.push(BACKSLASH);
            out.push(117);
            out.push(48);
            out.push(48);
            out.push(hex_digit(b / 16));
            out.push(hex_digit(b % 16));
        } else {
            out.push(b);
        }
        proof {
            assert(out@ =~= old(out)@ + spec_escape(p@.take(i as int + 1)));
        }
        i = i + 1;
    }
    proof {
        assert(p@.take(p@.len() as int) =~= p@);
    }
}

/// The bytes of `"capacity":`.
pub open spec fn spec_capacity_key() -> Seq<u8> {
    seq![34u8, 99u8, 97u8, 112u8, 97u8, 99u8, 105u8, 116u8, 121u8, 34u8, 58u8]
}

/// The bytes of `"rx_frames":`.
pub open spec fn spec_rx_frames_key() -> Seq<u8> {
    seq![34u8, 114u8, 120u8, 95u8, 102u8, 114u8, 97u8, 109u8, 101u8, 115u8, 34u8, 58u8]
}

fn push_capacity_key(out: &mut Vec<u8>)
    ensures
        final(out)@ == old(out)@ + spec_capacity_key(),
{
    out.push(34);
    out.push(99);
    out.push(97);
    out.push(112);
    out.push(97);
    out.push(99);
    out.push(105);
    out.push(116);
    out.push(121);
    out.push(34);
    out.push(58);
    proof {
        assert(final(out)@ =~= old(out)@ + spec_capacity_key());
    }
}

fn push_rx_frames_key(out: &mut Vec<u8>)
    ensures
        final(out)@ == old(out)@ + spec_rx_frames_key(),
{
    out.push(34);
    out.push(114);
    out.push(120);
    out.push(95);
    out.push(102);
    out.push(114);
    out.push(97);
    out.push(109);
    out.push(101);
    out.push(115);
    out.push(34);
    out.push(58);
    proof {
        assert(final(out)@ =~= old(out)@ + spec_rx_frames_key());
    }
}

/// One member of the status object: the quoted, escaped path mapped to an
/// object with the shard's free-slot gauge and its frame counter.
pub open spec fn spec_entry_json(path: Seq<u8>, st: Stats) -> Seq<u8> {
    seq![QUOTE] + spec_escape(path) + seq![QUOTE, COLON, LBRACE] + spec_capacity_key()
        + spec_decimal(st.capacity as nat) + seq![COMMA] + spec_rx_frames_key() + spec_decimal(
        st.rx_frames as nat,
    ) + seq![RBRACE]
}

/// Appends one status member for `path` and `st`.
fn push_entry(out: &mut Vec<u8>, path: &Vec<u8>, st: &Stats)
    ensures
        final(out)@ == old(out)@ + spec_entry_json(path@, *st),
{
    out.push(QUOTE);
    push_escaped(out, path);
    out.push(QUOTE);
    out.push(COLON);
    out.push(LBRACE);
    push_capacity_key(out);
    push_decimal(out, st.capacity);
    out.push(COMMA);
    push_rx_frames_key(out);
    push_decimal(out, st.rx_frames);
    out.push(RBRACE);
    proof {
        assert(final(out)@ =~= old(out)@ + spec_entry_json(path@, *st));
    }
}

/// `e` inserted into an already sorted entry sequence, before the first
/// entry whose path it does not come after.
pub open spec fn spec_insert_sorted(e: (Seq<u8>, Stats), sorted: Seq<(Seq<u8>, Stats)>) -> Seq<
    (Seq<u8>, Stats),
>
    decreases sorted.len(),
{
    if sorted.len() == 0 {
        seq![e]
    } else if spec_lex_le(e.0, sorted[0].0) {
        seq![e] + sorted
    } else {
        seq![sorted[0]] + spec_insert_sorted(e, sorted.drop_first())
    }
}

/// The entries sorted by path, built by inserting each entry, last first,
/// into the sorted rest.
pub open spec fn spec_sort_entries(entries: Seq<(Seq<u8>, Stats)>) -> Seq<(Seq<u8>, Stats)>
    decreases entries.len(),
{
    if entries.len() == 0 {
        Seq::<(Seq<u8>, Stats)>::empty()
    } else {
        spec_insert_sorted(entries.last(), spec_sort_entries(entries.drop_last()))
    }
}

/// The mathematical value of one built entry.
pub open spec fn spec_entry_view(e: (Vec<u8>, Stats)) -> (Seq<u8>, Stats) {
    (e.0@, e.1)
}

/// The mathematical value of a built entry sequence.
pub open spec fn spec_entries_view(s: Seq<(Vec<u8>, Stats)>) -> Seq<(Seq<u8>, Stats)> {
    s.map_values(|e: (Vec<u8>, Stats)| spec_entry_view(e))
}

proof fn lemma_insert_at(e: (Seq<u8>, Stats), s: Seq<(Seq<u8>, Stats)>, idx: int)
    requires
        0 <= idx <= s.len(),
        forall|k: int| 0 <= k < idx ==> !spec_lex_le(e.0, (#[trigger] s[k]).0),
        idx < s.len() ==> spec_lex_le(e.0, s[idx].0),
    ensures
        spec_insert_sorted(e, s) == s.subrange(0, idx) + seq![e] + s.subrange(idx, s.len() as int),
    decreases idx,
{
    if s.len() == 0 {
        assert(spec_insert_sorted(e, s) =~= s.subrange(0, idx) + seq![e] + s.subrange(
            idx,
            s.len() as int,
        ));
    } else if idx == 0 {
        assert(spec_insert_sorted(e, s) =~= s.subrange(0, idx) + seq![e] + s.subrange(
            idx,
            s.len() as int,
        ));
    } else {
        assert(!spec_lex_le(e.0, s[0].0));
        let rest = s.drop_first();
        assert forall|k: int| 0 <= k < idx - 1 implies !spec_lex_le(e.0, (#[trigger] rest[k]).0) by {
            assert(rest[k] == s[k + 1]);
        }
        lemma_insert_at(e, rest, idx - 1);
        assert(spec_insert_sorted(e, s) =~= s.subrange(0, idx) + seq![e] + s.subrange(
            idx,
            s.len() as int,
        ));
    }
}

/// Inserts `e` into `sorted`, keeping the path order.
fn insert_sorted(sorted: &mut Vec<(Vec<u8>, Stats)>, e: (Vec<u8>, Stats))
    ensures
        spec_entries_view(final(sorted)@) == spec_insert_sorted(
            spec_entry_view(e),
            spec_entries_view(old(sorted)@),
        ),
{
    let mut idx: usize = 0;
    while idx < sorted.len()
        invariant
            idx <= sorted@.len(),
            sorted@ == old(sorted)@,
            forall|k: int|
                0 <= k < idx ==> !spec_lex_le(e.0@, (#[trigger] spec_entries_view(sorted@)[k]).0),
        decreases sorted@.len() - idx,
    {
        if lex_le(&e.0, &sorted[idx].0) {
            proof {
                lemma_insert_at(
                    spec_entry_view(e),
                    spec_entries_view(sorted@),
                    idx as int,
                );
            }
            sorted.insert(idx, e);
            proof {
                assert(spec_entries_view(final(sorted)@) =~= spec_insert_sorted(
                    spec_entry_view(e),
                    spec_entries_view(old(sorted)@),
                ));
            }
            return ;
        }
        idx = idx + 1;
    }
    proof {
        lemma_insert_at(spec_entry_view(e), spec_entries_view(sorted@), idx as int);
    }
    sorted.insert(idx, e);
    proof {
        assert(spec_entries_view(final(sorted)@) =~= spec_insert_sorted(
            spec_entry_view(e),
            spec_entries_view(old(sorted)@),
        ));
    }
}

/// Lexicographic order is total: of two byte strings, one comes first.
proof fn lemma_lex_total(a: Seq<u8>, b: Seq<u8>)
    ensures
        spec_lex_le(a, b) || spec_lex_le(b, a),
    decreases a.len(),
{
    if a.len() != 0 && b.len() != 0 && a[0] == b[0] {
        lemma_lex_total(a.drop_first(), b.drop_first());
    }
}

/// Lexicographic order is transitive.
proof fn lemma_lex_trans(a: Seq<u8>, b: Seq<u8>, c: Seq<u8>)
    requires
        spec_lex_le(a, b),
        spec_lex_le(b, c),
    ensures
        spec_lex_le(a, c),
    decreases a.len(),
{
    if a.len() != 0 && b.len() != 0 && c.len() != 0 && a[0] == b[0] && b[0] == c[0] {
        lemma_lex_trans(a.drop_first(), b.drop_first(), c.drop_first());
    }
}

/// Whether the entries appear in non-descending path order.
pub open spec fn spec_sorted_by_path(s: Seq<(Seq<u8>, Stats)>) -> bool {
    forall|i: int, j: int|
        0 <= i < j < s.len() ==> spec_lex_le(#[trigger] s[i].0, #[trigger] s[j].0)
}

proof fn lemma_insert_sorted_multiset(e: (Seq<u8>, Stats), s: Seq<(Seq<u8>, Stats)>)
    ensures
        spec_insert_sorted(e, s).to_multiset() == s.to_multiset().insert(e),
    decreases s.len(),
{
    broadcast use vstd::seq_lib::group_to_multiset_ensures;
    broadcast use vstd::multiset::group_multiset_axioms;

    if s.len() == 0 {
        assert(seq![e] =~= Seq::<(Seq<u8>, Stats)>::empty().push(e));
        assert(spec_insert_sorted(e, s).to_multiset() =~= s.to_multiset().insert(e));
    } else if spec_lex_le(e.0, s[0].0) {
        assert(seq![e] + s =~= s.insert(0, e));
        vstd::seq_lib::to_multiset_insert(s, 0, e);
    } else {
        let rest = s.drop_first();
        lemma_insert_sorted_multiset(e, rest);
        let t = spec_insert_sorted(e, rest);
        assert(seq![s[0]] + t =~= t.insert(0, s[0]));
        vstd::seq_lib::to_multiset_insert(t, 0, s[0]);
        assert(s =~= rest.insert(0, s[0]));
        vstd::seq_lib::to_multiset_insert(rest, 0, s[0]);
        assert(rest.to_multiset().insert(e).insert(s[0]) =~= rest.to_multiset().insert(
            s[0],
        ).insert(e));
    }
}

proof fn lemma_insert_keeps_sorted(e: (Seq<u8>, Stats), s: Seq<(Seq<u8>, Stats)>)
    requires
        spec_sorted_by_path(s),
    ensures
        spec_sorted_by_path(spec_insert_sorted(e, s)),
    decreases s.len(),
{
    broadcast use vstd::seq_lib::group_to_multiset_ensures;
    broadcast use vstd::multiset::group_multiset_axioms;

    if s.len() == 0 {
    } else if spec_lex_le(e.0, s[0].0) {
        let t = seq![e] + s;
        assert forall|i: int, j: int| 0 <= i < j < t.len() implies spec_lex_le(
            #[trigger] t[i].0,
            #[trigger] t[j].0,
        ) by {
            if i == 0 {
                if j > 1 {
                    lemma_lex_trans(e.0, s[0].0, s[j - 1].0);
                }
            } else {
                assert(t[i] == s[i - 1] && t[j] == s[j - 1]);
            }
        }
    } else {
        let rest = s.drop_first();
        assert forall|i: int, j: int| 0 <= i < j < rest.len() implies spec_lex_le(
            #[trigger] rest[i].0,
            #[trigger] rest[j].0,
        ) by {
            assert(rest[i] == s[i + 1] && rest[j] == s[j + 1]);
        }
        lemma_insert_keeps_sorted(e, rest);
        let t = spec_insert_sorted(e, rest);
        lemma_insert_sorted_multiset(e, rest);
        let whole = seq![s[0]] + t;
        assert forall|i: int, j: int| 0 <= i < j < whole.len() implies spec_lex_le(
            #[trigger] whole[i].0,
            #[trigger] whole[j].0,
        ) by {
            if i == 0 {
                let x = whole[j];
                assert(t[j - 1] == x);
                assert(t.contains(x));
                assert(t.to_multiset().count(x) > 0);
                if x == e {
                    lemma_lex_total(e.0, s[0].0);
                } else {
                    assert(rest.to_multiset().count(x) > 0);
                    assert(rest.contains(x));
                    let k = choose|k: int| 0 <= k < rest.len() && rest[k] == x;
                    assert(s[k + 1] == x);
                    assert(spec_lex_le(s[0].0, s[k + 1].0));
                }
            } else {
                assert(whole[i] == t[i - 1] && whole[j] == t[j - 1]);
            }
        }
    }
}

/// The sorted entry sequence really is the supplied entries in lexicographic
/// path order: it is a permutation of them, and its paths never descend.
pub proof fn lemma_sort_entries_sorted(entries: Seq<(Seq<u8>, Stats)>)
    ensures
        spec_sorted_by_path(spec_sort_entries(entries)),
        spec_sort_entries(entries).to_multiset() == entries.to_multiset(),
    decreases entries.len(),
{
    broadcast use vstd::seq_lib::group_to_multiset_ensures;
    broadcast use vstd::multiset::group_multiset_axioms;

    if entries.len() == 0 {
    } else {
        let rest = entries.drop_last();
        lemma_sort_entries_sorted(rest);
        lemma_insert_keeps_sorted(entries.last(), spec_sort_entries(rest));
        lemma_insert_sorted_multiset(entries.last(), spec_sort_entries(rest));
        assert(entries =~= rest.push(entries.last()));
        assert(spec_sort_entries(entries).to_multiset() =~= entries.to_multiset());
    }
}

/// The members of the status object, in entry order, separated by commas.
pub open spec fn spec_entries_json(entries: Seq<(Seq<u8>, Stats)>) -> Seq<u8>
    decreases entries.len(),
{
    if entries.len() == 0 {
        Seq::<u8>::empty()
    } else if entries.len() == 1 {
        spec_entry_json(entries[0].0, entries[0].1)
    } else {
        spec_entry_json(entries[0].0, entries[0].1) + seq![COMMA] + spec_entries_json(
            entries.drop_first(),
        )
    }
}

proof fn lemma_entries_json_snoc(entries: Seq<(Seq<u8>, Stats)>, e: (Seq<u8>, Stats))
    ensures
        spec_entries_json(entries.push(e)) == spec_entries_json(entries) + (if entries.len() == 0 {
            Seq::<u8>::empty()
        } else {
            seq![COMMA]
        }) + spec_entry_json(e.0, e.1),
    decreases entries.len(),
{
    if entries.len() == 0 {
        assert(spec_entries_json(entries.push(e)) =~= spec_entries_json(entries) + Seq::<
            u8,
        >::empty() + spec_entry_json(e.0, e.1));
    } else {
        assert(entries.push(e).drop_first() =~= entries.drop_first().push(e));
        lemma_entries_json_snoc(entries.drop_first(), e);
        assert(spec_entries_json(entries.push(e)) =~= spec_entries_json(entries) + seq![COMMA]
            + spec_entry_json(e.0, e.1));
    }
}

/// The paths of the supplied path list, as byte strings.
pub open spec fn spec_paths_view(paths: Seq<Vec<u8>>) -> Seq<Seq<u8>> {
    paths.map_values(|p: Vec<u8>| p@)
}

/// The entries of the status document, in supplied order: each path paired
/// with its shard's counters.
pub open spec fn spec_entries_of(paths: Seq<Seq<u8>>, stats: Seq<Stats>) -> Seq<(Seq<u8>, Stats)>
    recommends
        paths.len() == stats.len(),
{
    Seq::new(paths.len(), |i: int| (paths[i], stats[i]))
}

/// The whole status document: one JSON object holding one member per shard,
/// keyed by the supplied paths in lexicographic byte order, closed by a line
/// feed.
pub open spec fn spec_status_json(paths: Seq<Seq<u8>>, stats: Seq<Stats>) -> Seq<u8>
    recommends
        paths.len() == stats.len(),
{
    seq![LBRACE] + spec_entries_json(spec_sort_entries(spec_entries_of(paths, stats))) + seq![
        RBRACE,
        NEWLINE,
    ]
}

/// Renders one telemetry snapshot as the status document: every supplied
/// path appears, verbatim, exactly once per occurrence, keyed in
/// lexicographic byte order, mapped to that shard's counters.
pub fn status_json(paths: &Vec<Vec<u8>>, stats: &Vec<Stats>) -> (r: Vec<u8>)
    requires
        paths@.len() == stats@.len(),
    ensures
        r@ == spec_status_json(spec_paths_view(paths@), stats@),
{
    let ghost entries_spec = spec_entries_of(spec_paths_view(paths@), stats@);
    let mut sorted: Vec<(Vec<u8>, Stats)> = Vec::new();
    let mut i: usize = 0;
    while i < paths.len()
        invariant
            paths@.len() == stats@.len(),
            i <= paths@.len(),
            entries_spec == spec_entries_of(spec_paths_view(paths@), stats@),
            spec_entries_view(sorted@) == spec_sort_entries(entries_spec.take(i as int)),
        decreases paths@.len() - i,
    {
        let path = vstd::slice::slice_to_vec(paths[i].as_slice());
        let st = stats[i];
        proof {
            assert(entries_spec.take(i as int + 1).drop_last() =~= entries_spec.take(i as int));
            assert(entries_spec.take(i as int + 1).last() == (paths@[i as int]@, stats@[i as int]));
        }
        insert_sorted(&mut sorted, (path, st));
        i = i + 1;
    }
    proof {
        assert(entries_spec.take(entries_spec.len() as int) =~= entries_spec);
    }

    let mut out: Vec<u8> = Vec::new();
    out.push(LBRACE);
    let mut k: usize = 0;
    while k < sorted.len()
        invariant
            k <= sorted@.len(),
            spec_entries_view(sorted@) == spec_sort_entries(entries_spec),
            out@ == seq![LBRACE] + spec_entries_json(spec_entries_view(sorted@).take(k as int)),
        decreases sorted@.len() - k,
    {
        proof {
            assert(spec_entries_view(sorted@).take(k as int + 1).drop_last() =~= spec_entries_view(
                sorted@,
            ).take(k as int));
            assert(spec_entries_view(sorted@).take(k as int + 1) =~= spec_entries_view(
                sorted@,
            ).take(k as int).push(spec_entries_view(sorted@)[k as int]));
            lemma_entries_json_snoc(
                spec_entries_view(sorted@).take(k as int),
                spec_entries_view(sorted@)[k as int],
            );
        }
        if k > 0 {
            out.push(COMMA);
        }
        let entry = &sorted[k];
        push_entry(&mut out, &entry.0, &entry.1);
        proof {
            assert(out@ =~= seq![LBRACE] + spec_entries_json(
                spec_entries_view(sorted@).take(k as int + 1),
            ));
        }
        k = k + 1;
    }
    out.push(RBRACE);
    out.push(NEWLINE);
    proof {
        assert(spec_entries_view(sorted@).take(sorted@.len() as int) =~= spec_entries_view(
            sorted@,
        ));
        assert(out@ =~= spec_status_json(spec_paths_view(paths@), stats@));
    }
    out
}

} // verus!
