//! The team savings roll-up.
//!
//! The savings store holds one append-only JSONL file per signer
//! (`savings_<pubkey>.jsonl`); each line is a signed snapshot of that signer's
//! whole local ledger. Successive batches from one signer are cumulative
//! re-snapshots, not increments, so the honest team total is the sum of each
//! signer's latest batch, never the sum of every batch.
//!
//! This module decides which files belong to the store, which lines of a file
//! are candidates for its latest batch, and how the latest batches are summed,
//! ranked and broken down by model. Token amounts are summed with saturation.

use crate::security::has_prefix;
use crate::text::{
    ascii_lowercase,
    chars_of,
    lower_range_equals,
    push_char,
    string_of_range,
    trim,
    trim_range,
};
use vstd::prelude::*;

verus! {

// ---------------------------------------------------------------------------
// Store files
// ---------------------------------------------------------------------------

/// The index of the last `.` in `s`, if any.
pub open spec fn last_dot(s: Seq<char>) -> Option<int>
    decreases s.len(),
{
    if s.len() == 0 {
        None
    } else if s.last() == '.' {
        Some(s.len() - 1)
    } else {
        last_dot(s.drop_last())
    }
}

/// Whether a file name belongs to the savings store: it starts with
/// `savings_` and its extension (the text after the last `.`) is `jsonl` in
/// any ASCII case.
pub open spec fn is_savings_name(name: Seq<char>) -> bool {
    &&& has_prefix(name, "savings_"@)
    &&& last_dot(name) is Some
    &&& ascii_lowercase(name.subrange(last_dot(name)->0 + 1, name.len() as int)) == "jsonl"@
}

/// Whether the file `name` belongs to the savings store.
pub fn is_savings_file_name(name: &str) -> (b: bool)
    ensures
        b == is_savings_name(name@),
{
    let v = chars_of(name);
    let prefix = chars_of("savings_");
    if prefix.len() > v.len() {
        return false;
    }
    let mut i: usize = 0;
    while i < prefix.len()
        invariant
            v@ == name@,
            prefix@ == "savings_"@,
            prefix.len() <= v.len(),
            i <= prefix.len(),
            forall|j: int| 0 <= j < i ==> v@[j] == prefix@[j],
        decreases prefix.len() - i,
    {
        if v[i] != prefix[i] {
            assert(v@.subrange(0, prefix.len() as int)[i as int] != prefix@[i as int]);
            return false;
        }
        i = i + 1;
    }
    assert(v@.subrange(0, prefix.len() as int) =~= prefix@);
    let mut k: usize = v.len();
    assert(v@.subrange(0, v.len() as int) =~= v@);
    while k > 0 && v[k - 1] != '.'
        invariant
            k <= v.len(),
            last_dot(v@) == last_dot(v@.subrange(0, k as int)),
        decreases k,
    {
        assert(v@.subrange(0, k as int).drop_last() =~= v@.subrange(0, k - 1));
        k = k - 1;
    }
    if k == 0 {
        assert(v@.subrange(0, 0) =~= Seq::<char>::empty());
        return false;
    }
    assert(last_dot(v@.subrange(0, k as int)) == Some(k - 1));
    let jsonl = vec!['j', 's', 'o', 'n', 'l'];
    proof {
        reveal_strlit("jsonl");
        assert(jsonl@ =~= "jsonl"@);
    }
    lower_range_equals(&v, k, v.len(), &jsonl)
}

// ---------------------------------------------------------------------------
// Candidate lines of a signer file
// ---------------------------------------------------------------------------

/// The pieces of `s` between newlines (there is always at least one).
pub open spec fn split_lines(s: Seq<char>) -> Seq<Seq<char>>
    decreases s.len(),
{
    if s.len() == 0 {
        seq![Seq::empty()]
    } else {
        let rest = split_lines(s.drop_last());
        if s.last() == '\n' {
            rest.push(Seq::empty())
        } else {
            rest.update(rest.len() - 1, rest.last().push(s.last()))
        }
    }
}

/// The trimmed pieces that are not blank, in order.
pub open spec fn nonblank(pieces: Seq<Seq<char>>) -> Seq<Seq<char>>
    decreases pieces.len(),
{
    if pieces.len() == 0 {
        Seq::empty()
    } else {
        let rest = nonblank(pieces.drop_last());
        if trim(pieces.last()).len() > 0 {
            rest.push(trim(pieces.last()))
        } else {
            rest
        }
    }
}

/// The lines of a signer file that may hold its latest batch, most recent
/// first: every non-blank line, trimmed, from the last line to the first.
/// The latest batch is the first of them that parses.
pub open spec fn batch_line_candidates(content: Seq<char>) -> Seq<Seq<char>> {
    nonblank(split_lines(content)).reverse()
}

proof fn lemma_split_lines_len(s: Seq<char>)
    ensures
        split_lines(s).len() >= 1,
    decreases s.len(),
{
    if s.len() > 0 {
        lemma_split_lines_len(s.drop_last());
    }
}

/// The candidate lines of a signer file, most recent first.
pub fn batch_candidates(content: &str) -> (r: Vec<String>)
    ensures
        r@.map_values(|s: String| s@) == batch_line_candidates(content@),
{
    let c = chars_of(content);
    let n = c.len();
    let mut kept: Vec<String> = Vec::new();
    let mut start: usize = 0;
    let mut i: usize = 0;
    assert(c@.take(0) =~= Seq::<char>::empty());
    while i < n
        invariant
            n == c.len(),
            start <= i <= n,
            split_lines(c@.take(i as int)).len() >= 1,
            split_lines(c@.take(i as int)).last() == c@.subrange(start as int, i as int),
            kept@.map_values(|s: String| s@) == nonblank(
                split_lines(c@.take(i as int)).drop_last(),
            ),
        decreases n - i,
    {
        let ghost p = split_lines(c@.take(i as int));
        proof {
            assert(c@.take(i + 1).drop_last() =~= c@.take(i as int));
            lemma_split_lines_len(c@.take(i as int));
        }
        if c[i] == '\n' {
            let (a, b) = trim_range(&c, start, i);
            if a < b {
                let ghost before = kept@;
                kept.push(string_of_range(&c, a, b));
                assert(kept@.map_values(|s: String| s@) =~= before.map_values(|s: String| s@).push(
                    trim(p.last()),
                ));
            }
            proof {
                let q = split_lines(c@.take(i + 1));
                assert(q =~= p.push(Seq::empty()));
                assert(q.drop_last() =~= p);
                assert(c@.subrange(i + 1, i + 1) =~= Seq::<char>::empty());
            }
            start = i + 1;
        } else {
            proof {
                let q = split_lines(c@.take(i + 1));
                assert(q =~= p.update(p.len() - 1, p.last().push(c@[i as int])));
                assert(q.drop_last() =~= p.drop_last());
                assert(q.last() =~= c@.subrange(start as int, i + 1));
            }
        }
        i = i + 1;
    }
    let ghost p = split_lines(c@.take(n as int));
    proof {
        assert(c@.take(n as int) =~= c@);
        lemma_split_lines_len(c@);
        assert(p.drop_last().push(p.last()) =~= p);
    }
    let (a, b) = trim_range(&c, start, n);
    if a < b {
        let ghost before = kept@;
        kept.push(string_of_range(&c, a, b));
        assert(kept@.map_values(|s: String| s@) =~= before.map_values(|s: String| s@).push(
            trim(p.last()),
        ));
    }
    let ghost fwd = kept@.map_values(|s: String| s@);
    assert(fwd == nonblank(p));
    let mut out: Vec<String> = Vec::new();
    let mut j: usize = kept.len();
    while j > 0
        invariant
            j <= kept.len(),
            fwd == kept@.map_values(|s: String| s@),
            out@.map_values(|s: String| s@) == fwd.subrange(j as int, fwd.len() as int).reverse(),
        decreases j,
    {
        let ghost before = out@.map_values(|s: String| s@);
        let item = kept[j - 1].clone();
        assert(item@ == fwd[j - 1]);
        out.push(item);
        assert(out@.map_values(|s: String| s@) =~= before.push(fwd[j - 1]));
        assert(fwd.subrange(j - 1, fwd.len() as int).reverse() =~= fwd.subrange(
            j as int,
            fwd.len() as int,
        ).reverse().push(fwd[j - 1]));
        j = j - 1;
    }
    assert(fwd.subrange(0, fwd.len() as int) =~= fwd);
    out
}

// ---------------------------------------------------------------------------
// Stable descending order
// ---------------------------------------------------------------------------

/// `s` (already in order) with `x` placed after every element whose key is at
/// least `key(x)` and before the first one with a smaller key.
pub open spec fn insert_desc<A>(s: Seq<A>, x: A, key: spec_fn(A) -> int) -> Seq<A>
    decreases s.len(),
{
    if s.len() == 0 {
        seq![x]
    } else if key(s.last()) >= key(x) {
        s.push(x)
    } else {
        insert_desc(s.drop_last(), x, key).push(s.last())
    }
}

/// The stable descending order of `s` by `key`: greater keys first, elements
/// with equal keys in their original order (`sort_by_key` with `Reverse`).
pub open spec fn sort_desc<A>(s: Seq<A>, key: spec_fn(A) -> int) -> Seq<A>
    decreases s.len(),
{
    if s.len() == 0 {
        s
    } else {
        insert_desc(sort_desc(s.drop_last(), key), s.last(), key)
    }
}

proof fn lemma_insert_desc_at<A>(s: Seq<A>, x: A, key: spec_fn(A) -> int, j: int)
    requires
        0 <= j <= s.len(),
        forall|k: int| j <= k < s.len() ==> key(#[trigger] s[k]) < key(x),
        j == 0 || key(s[j - 1]) >= key(x),
    ensures
        insert_desc(s, x, key) == s.insert(j, x),
    decreases s.len(),
{
    if s.len() == 0 {
        assert(s.insert(j, x) =~= seq![x]);
    } else if j == s.len() {
        assert(s.insert(j, x) =~= s.push(x));
    } else {
        let t = s.drop_last();
        assert forall|k: int| j <= k < t.len() implies key(#[trigger] t[k]) < key(x) by {
            assert(t[k] == s[k]);
        }
        lemma_insert_desc_at(t, x, key, j);
        assert(s.insert(j, x) =~= t.insert(j, x).push(s.last()));
    }
}

proof fn lemma_insert_index<A>(s: Seq<A>, x: A, key: spec_fn(A) -> int)
    ensures
        0 <= insert_index(s, x, key) <= s.len(),
        forall|k: int| insert_index(s, x, key) <= k < s.len() ==> key(#[trigger] s[k]) < key(x),
        insert_index(s, x, key) == 0 || key(s[insert_index(s, x, key) - 1]) >= key(x),
    decreases s.len(),
{
    if s.len() > 0 && key(s.last()) < key(x) {
        let t = s.drop_last();
        lemma_insert_index(t, x, key);
        assert forall|k: int| insert_index(s, x, key) <= k < s.len() implies key(#[trigger] s[k])
            < key(x) by {
            if k < t.len() {
                assert(t[k] == s[k]);
            }
        }
    }
}

/// The stable descending order is in descending key order and holds the same
/// elements as its input.
pub proof fn lemma_sort_desc_sorted<A>(s: Seq<A>, key: spec_fn(A) -> int)
    ensures
        sort_desc(s, key).len() == s.len(),
        forall|a: int, b: int|
            0 <= a < b < s.len() ==> key(#[trigger] sort_desc(s, key)[a]) >= key(
                #[trigger] sort_desc(s, key)[b],
            ),
        sort_desc(s, key).to_multiset() == s.to_multiset(),
    decreases s.len(),
{
    if s.len() > 0 {
        let t = s.drop_last();
        lemma_sort_desc_sorted(t, key);
        let st = sort_desc(t, key);
        let x = s.last();
        lemma_insert_index(st, x, key);
        let j = insert_index(st, x, key);
        lemma_insert_desc_at(st, x, key, j);
        let r = st.insert(j, x);
        assert forall|a: int, b: int| 0 <= a < b < r.len() implies key(#[trigger] r[a]) >= key(
            #[trigger] r[b],
        ) by {
            if a < j && b < j {
                assert(r[a] == st[a] && r[b] == st[b]);
            } else if a < j && b == j {
                assert(r[a] == st[a]);
                if a < j - 1 {
                    assert(key(st[a]) >= key(st[j - 1]));
                }
            } else if a < j {
                assert(r[a] == st[a] && r[b] == st[b - 1]);
            } else if a == j {
                assert(r[b] == st[b - 1]);
            } else {
                assert(r[a] == st[a - 1] && r[b] == st[b - 1]);
            }
        }
        assert(s =~= t.push(x));
        vstd::seq_lib::to_multiset_build(t, x);
        vstd::seq_lib::to_multiset_insert(st, j, x);
    }
}

/// The position at which `insert_desc` places `x`.
spec fn insert_index<A>(s: Seq<A>, x: A, key: spec_fn(A) -> int) -> int
    decreases s.len(),
{
    if s.len() == 0 {
        0
    } else if key(s.last()) >= key(x) {
        s.len() as int
    } else {
        insert_index(s.drop_last(), x, key)
    }
}

// ---------------------------------------------------------------------------
// Roll-up of the latest batches
// ---------------------------------------------------------------------------

/// What the roll-up reads of one signer's latest batch. USD amounts stay with
/// the caller; this holds the token amounts and identities.
pub struct SavingsBatch {
    pub agent_id: String,
    /// `created_at` of the batch (RFC 3339).
    pub created_at: String,
    pub signer_public_key: Option<String>,
    /// Gross saved tokens (before bounce adjustment).
    pub saved_tokens: u64,
    /// Net saved tokens (gross minus compressed-to-full re-read bounce).
    pub net_saved_tokens: u64,
    /// Saved tokens per model.
    pub by_model: Vec<(String, u64)>,
}

/// One member row: a signer's latest batch.
pub struct MemberTokens {
    /// Index of the batch this row comes from.
    pub batch: usize,
    /// Truncated signer public key: a stable, privacy-preserving member id.
    pub signer: String,
    pub agent_id: String,
    pub net_saved_tokens: u64,
    /// `created_at` of the member's most recent batch.
    pub last_reported: String,
}

/// One model row of the cross-team breakdown.
pub struct ModelTokens {
    pub model: String,
    pub saved_tokens: u64,
}

/// The team roll-up of the signers' latest batches.
pub struct SavingsRollup {
    /// Distinct signers that have reported savings.
    pub member_count: usize,
    /// Gross saved tokens over all members (saturating).
    pub saved_tokens: u64,
    /// Net saved tokens over all members (saturating).
    pub net_saved_tokens: u64,
    /// One row per member, descending by net saved tokens.
    pub by_member: Vec<MemberTokens>,
    /// At most ten models, descending by saved tokens.
    pub by_model: Vec<ModelTokens>,
}

/// The exact sum of a sequence of token amounts.
pub open spec fn token_sum(s: Seq<u64>) -> int
    decreases s.len(),
{
    if s.len() == 0 {
        0
    } else {
        token_sum(s.drop_last()) + s.last()
    }
}

/// `x` capped at `u64::MAX`.
pub open spec fn saturate(x: int) -> int {
    if x > u64::MAX {
        u64::MAX as int
    } else {
        x
    }
}

/// The member id of a signer key: its first sixteen characters, or `unknown`.
pub open spec fn signer_label(pk: Option<String>) -> Seq<char> {
    match pk {
        Some(s) => if s@.len() <= 16 {
            s@
        } else {
            s@.take(16)
        },
        None => "unknown"@,
    }
}

/// The member row of batch `i`: (batch, signer, agent, net tokens, last reported).
pub open spec fn member_of(b: SavingsBatch, i: int) -> (int, Seq<char>, Seq<char>, u64, Seq<char>) {
    (i, signer_label(b.signer_public_key), b.agent_id@, b.net_saved_tokens, b.created_at@)
}

/// The view of a member row.
pub open spec fn member_view(m: MemberTokens) -> (int, Seq<char>, Seq<char>, u64, Seq<char>) {
    (m.batch as int, m.signer@, m.agent_id@, m.net_saved_tokens, m.last_reported@)
}

/// Members are ranked by net saved tokens.
pub open spec fn member_key() -> spec_fn((int, Seq<char>, Seq<char>, u64, Seq<char>)) -> int {
    |m: (int, Seq<char>, Seq<char>, u64, Seq<char>)| m.3 as int
}

/// The member rows of `bs`, ranked.
pub open spec fn ranked_members(bs: Seq<SavingsBatch>) -> Seq<
    (int, Seq<char>, Seq<char>, u64, Seq<char>),
> {
    sort_desc(Seq::new(bs.len(), |i: int| member_of(bs[i], i)), member_key())
}

/// Every (model, tokens) entry of the batches, batch by batch.
pub open spec fn model_entries(bs: Seq<SavingsBatch>) -> Seq<(Seq<char>, u64)>
    decreases bs.len(),
{
    if bs.len() == 0 {
        Seq::empty()
    } else {
        model_entries(bs.drop_last()) + bs.last().by_model@.map_values(
            |p: (String, u64)| (p.0@, p.1),
        )
    }
}

/// The position of model `m` in `acc` (its last occurrence), or -1.
pub open spec fn model_index(acc: Seq<(Seq<char>, u64)>, m: Seq<char>) -> int
    decreases acc.len(),
{
    if acc.len() == 0 {
        -1
    } else if acc.last().0 == m {
        acc.len() - 1
    } else {
        model_index(acc.drop_last(), m)
    }
}

/// Per-model saturating token totals, models in order of first appearance
/// (which settles the order of models with equal totals after ranking).
pub open spec fn model_totals(entries: Seq<(Seq<char>, u64)>) -> Seq<(Seq<char>, u64)>
    decreases entries.len(),
{
    if entries.len() == 0 {
        Seq::empty()
    } else {
        let acc = model_totals(entries.drop_last());
        let e = entries.last();
        let k = model_index(acc, e.0);
        if k >= 0 {
            acc.update(k, (e.0, saturate(acc[k].1 + e.1) as u64))
        } else {
            acc.push(e)
        }
    }
}

/// Models are ranked by saved tokens.
pub open spec fn model_key() -> spec_fn((Seq<char>, u64)) -> int {
    |p: (Seq<char>, u64)| p.1 as int
}

/// The model breakdown: the per-model totals, ranked, at most ten.
pub open spec fn top_models(bs: Seq<SavingsBatch>) -> Seq<(Seq<char>, u64)> {
    let ranked = sort_desc(model_totals(model_entries(bs)), model_key());
    if ranked.len() <= 10 {
        ranked
    } else {
        ranked.take(10)
    }
}

/// The view of a model row.
pub open spec fn model_view(m: ModelTokens) -> (Seq<char>, u64) {
    (m.model@, m.saved_tokens)
}

fn signer_text(pk: &Option<String>) -> (s: String)
    ensures
        s@ == signer_label(*pk),
{
    match pk {
        Some(k) => {
            let c = chars_of(k.as_str());
            let n = if c.len() < 16 {
                c.len()
            } else {
                16
            };
            assert(c@.subrange(0, c@.len() as int) =~= c@);
            string_of_range(&c, 0, n)
        },
        None => "unknown".to_owned(),
    }
}

fn insert_member(members: &mut Vec<MemberTokens>, m: MemberTokens)
    ensures
        final(members)@.map_values(|x: MemberTokens| member_view(x)) == insert_desc(
            old(members)@.map_values(|x: MemberTokens| member_view(x)),
            member_view(m),
            member_key(),
        ),
{
    let ghost v = members@.map_values(|x: MemberTokens| member_view(x));
    let mut j: usize = members.len();
    while j > 0 && members[j - 1].net_saved_tokens < m.net_saved_tokens
        invariant
            j <= members.len(),
            v == members@.map_values(|x: MemberTokens| member_view(x)),
            forall|k: int| j <= k < v.len() ==> (member_key())(#[trigger] v[k]) < (member_key())(
                member_view(m),
            ),
        decreases j,
    {
        j = j - 1;
    }
    let ghost mv = member_view(m);
    proof {
        lemma_insert_desc_at(v, mv, member_key(), j as int);
    }
    members.insert(j, m);
    assert(members@.map_values(|x: MemberTokens| member_view(x)) =~= v.insert(j as int, mv));
}

fn insert_model(rows: &mut Vec<ModelTokens>, m: ModelTokens)
    ensures
        final(rows)@.map_values(|x: ModelTokens| model_view(x)) == insert_desc(
            old(rows)@.map_values(|x: ModelTokens| model_view(x)),
            model_view(m),
            model_key(),
        ),
{
    let ghost v = rows@.map_values(|x: ModelTokens| model_view(x));
    let mut j: usize = rows.len();
    while j > 0 && rows[j - 1].saved_tokens < m.saved_tokens
        invariant
            j <= rows.len(),
            v == rows@.map_values(|x: ModelTokens| model_view(x)),
            forall|k: int| j <= k < v.len() ==> (model_key())(#[trigger] v[k]) < (model_key())(
                model_view(m),
            ),
        decreases j,
    {
        j = j - 1;
    }
    let ghost mv = model_view(m);
    proof {
        lemma_insert_desc_at(v, mv, model_key(), j as int);
    }
    rows.insert(j, m);
    assert(rows@.map_values(|x: ModelTokens| model_view(x)) =~= v.insert(j as int, mv));
}

/// Adds `tokens` to the total of `model` in `acc`, or appends the model.
fn add_model(acc: &mut Vec<ModelTokens>, model: &String, tokens: u64)
    ensures
        ({
            let a = old(acc)@.map_values(|x: ModelTokens| model_view(x));
            let k = model_index(a, model@);
            final(acc)@.map_values(|x: ModelTokens| model_view(x)) == if k >= 0 {
                a.update(k, (model@, saturate(a[k].1 + tokens) as u64))
            } else {
                a.push((model@, tokens))
            }
        }),
{
    let ghost a = acc@.map_values(|x: ModelTokens| model_view(x));
    let mut j: usize = acc.len();
    assert(a.take(a.len() as int) =~= a);
    while j > 0
        invariant
            j <= acc.len(),
            a == acc@.map_values(|x: ModelTokens| model_view(x)),
            a == old(acc)@.map_values(|x: ModelTokens| model_view(x)),
            model_index(a, model@) == model_index(a.take(j as int), model@),
        decreases j,
    {
        if acc[j - 1].model == *model {
            assert(a.take(j as int).last().0 == model@);
            assert(model_index(a, model@) == j - 1);
            let t = acc[j - 1].saved_tokens.saturating_add(tokens);
            let name = acc[j - 1].model.clone();
            acc.set(j - 1, ModelTokens { model: name, saved_tokens: t });
            assert(acc@.map_values(|x: ModelTokens| model_view(x)) =~= a.update(
                j - 1,
                (model@, saturate(a[j - 1].1 + tokens) as u64),
            ));
            return ;
        }
        assert(a.take(j as int).drop_last() =~= a.take(j - 1));
        j = j - 1;
    }
    acc.push(ModelTokens { model: model.clone(), saved_tokens: tokens });
    assert(acc@.map_values(|x: ModelTokens| model_view(x)) =~= a.push((model@, tokens)));
}

/// Sums the signers' latest batches: saturating token totals, one member row
/// per batch ranked by net saved tokens, and the per-model totals ranked by
/// saved tokens, at most ten.
pub fn summarize(batches: &Vec<SavingsBatch>) -> (r: SavingsRollup)
    ensures
        r.member_count == batches.len(),
        r.saved_tokens == saturate(token_sum(batches@.map_values(|b: SavingsBatch| b.saved_tokens))),
        r.net_saved_tokens == saturate(
            token_sum(batches@.map_values(|b: SavingsBatch| b.net_saved_tokens)),
        ),
        r.by_member@.map_values(|m: MemberTokens| member_view(m)) == ranked_members(batches@),
        r.by_model@.map_values(|m: ModelTokens| model_view(m)) == top_models(batches@),
        // one row per model, holding the saturating sum over all batches of its entries
        forall|a: int, b: int|
            0 <= a < b < r.by_model.len() ==> #[trigger] r.by_model@[a].model@
                != #[trigger] r.by_model@[b].model@,
        forall|i: int|
            0 <= i < r.by_model.len() ==> #[trigger] r.by_model@[i].saved_tokens == saturate(
                named_total(model_entries(batches@), r.by_model@[i].model@),
            ),
{
    let n = batches.len();
    let mut saved: u64 = 0;
    let mut net: u64 = 0;
    let mut members: Vec<MemberTokens> = Vec::new();
    let mut acc: Vec<ModelTokens> = Vec::new();
    let ghost bs = batches@;
    let mut i: usize = 0;
    while i < n
        invariant
            n == batches.len(),
            bs == batches@,
            i <= n,
            saved == saturate(token_sum(bs.take(i as int).map_values(|b: SavingsBatch| b.saved_tokens))),
            net == saturate(
                token_sum(bs.take(i as int).map_values(|b: SavingsBatch| b.net_saved_tokens)),
            ),
            members@.map_values(|m: MemberTokens| member_view(m)) == sort_desc(
                Seq::new(i as nat, |k: int| member_of(bs[k], k)),
                member_key(),
            ),
            acc@.map_values(|m: ModelTokens| model_view(m)) == model_totals(
                model_entries(bs.take(i as int)),
            ),
        decreases n - i,
    {
        let b = &batches[i];
        proof {
            assert(bs.take(i + 1).drop_last() =~= bs.take(i as int));
            assert(bs.take(i + 1).map_values(|b: SavingsBatch| b.saved_tokens).drop_last()
                =~= bs.take(i as int).map_values(|b: SavingsBatch| b.saved_tokens));
            assert(bs.take(i + 1).map_values(|b: SavingsBatch| b.net_saved_tokens).drop_last()
                =~= bs.take(i as int).map_values(|b: SavingsBatch| b.net_saved_tokens));
        }
        saved = saved.saturating_add(b.saved_tokens);
        net = net.saturating_add(b.net_saved_tokens);
        let ghost before = model_entries(bs.take(i as int));
        let ghost added = b.by_model@.map_values(|p: (String, u64)| (p.0@, p.1));
        let mut j: usize = 0;
        while j < b.by_model.len()
            invariant
                j <= b.by_model.len(),
                added == b.by_model@.map_values(|p: (String, u64)| (p.0@, p.1)),
                acc@.map_values(|m: ModelTokens| model_view(m)) == model_totals(
                    before + added.take(j as int),
                ),
            decreases b.by_model.len() - j,
        {
            let (ref model, tokens) = b.by_model[j];
            add_model(&mut acc, model, tokens);
            assert((before + added.take(j + 1)).drop_last() =~= before + added.take(j as int));
            j = j + 1;
        }
        proof {
            assert(added.take(added.len() as int) =~= added);
            assert(model_entries(bs.take(i + 1)) == before + added);
        }
        let m = MemberTokens {
            batch: i,
            signer: signer_text(&b.signer_public_key),
            agent_id: b.agent_id.clone(),
            net_saved_tokens: b.net_saved_tokens,
            last_reported: b.created_at.clone(),
        };
        insert_member(&mut members, m);
        proof {
            assert(Seq::new((i + 1) as nat, |k: int| member_of(bs[k], k)).drop_last() =~= Seq::new(
                i as nat,
                |k: int| member_of(bs[k], k),
            ));
        }
        i = i + 1;
    }
    proof {
        assert(bs.take(n as int) =~= bs);
    }
    let ghost totals = acc@.map_values(|m: ModelTokens| model_view(m));
    let mut ranked: Vec<ModelTokens> = Vec::new();
    let mut k: usize = 0;
    while k < acc.len()
        invariant
            k <= acc.len(),
            totals == acc@.map_values(|m: ModelTokens| model_view(m)),
            ranked@.map_values(|m: ModelTokens| model_view(m)) == sort_desc(
                totals.take(k as int),
                model_key(),
            ),
        decreases acc.len() - k,
    {
        let row = ModelTokens { model: acc[k].model.clone(), saved_tokens: acc[k].saved_tokens };
        assert(model_view(row) == totals[k as int]);
        insert_model(&mut ranked, row);
        assert(totals.take(k + 1).drop_last() =~= totals.take(k as int));
        k = k + 1;
    }
    proof {
        assert(totals.take(totals.len() as int) =~= totals);
        lemma_sort_desc_sorted(totals, model_key());
    }
    ranked.truncate(10);
    assert(ranked@.map_values(|m: ModelTokens| model_view(m)) =~= top_models(batches@));
    proof {
        lemma_model_breakdown_sums_by_name(batches@);
        let v = ranked@.map_values(|m: ModelTokens| model_view(m));
        let top = top_models(batches@);
        assert forall|a: int, b: int| 0 <= a < b < ranked.len() implies #[trigger] ranked@[a].model@
            != #[trigger] ranked@[b].model@ by {
            assert(v[a] == top[a] && v[b] == top[b]);
        }
        assert forall|i: int| 0 <= i < ranked.len() implies #[trigger] ranked@[i].saved_tokens
            == saturate(named_total(model_entries(batches@), ranked@[i].model@)) by {
            assert(v[i] == top[i]);
            assert(top[i].1 == saturate(named_total(model_entries(batches@), top[i].0)));
        }
    }
    SavingsRollup {
        member_count: n,
        saved_tokens: saved,
        net_saved_tokens: net,
        by_member: members,
        by_model: ranked,
    }
}

proof fn lemma_split_lines_append(s: Seq<char>, l: Seq<char>)
    requires
        forall|i: int| 0 <= i < l.len() ==> l[i] != '\n',
    ensures
        split_lines(s.push('\n') + l) == split_lines(s).push(l),
    decreases l.len(),
{
    let x = s.push('\n') + l;
    if l.len() == 0 {
        assert(x =~= s.push('\n'));
        assert(x.drop_last() =~= s);
        assert(l =~= Seq::<char>::empty());
        assert(x.last() == '\n');
    } else {
        let t = l.drop_last();
        assert forall|i: int| 0 <= i < t.len() implies t[i] != '\n' by {
            assert(t[i] == l[i]);
        }
        lemma_split_lines_append(s, t);
        assert(x.drop_last() =~= s.push('\n') + t);
        assert(x.last() == l[l.len() - 1]);
        assert(x.last() != '\n');
        let p = split_lines(s.push('\n') + t);
        assert(p == split_lines(s).push(t));
        assert(p.update(p.len() - 1, p.last().push(x.last())) =~= split_lines(s).push(l)) by {
            assert(t.push(l.last()) =~= l);
        }
    }
}

/// Appending a newer, non-blank batch line to a signer file makes it the
/// first candidate for the signer's latest batch: a re-snapshot replaces the
/// previous one instead of adding to it.
pub proof fn lemma_appended_line_is_latest(content: Seq<char>, line: Seq<char>)
    requires
        forall|i: int| 0 <= i < line.len() ==> line[i] != '\n',
        trim(line).len() > 0,
    ensures
        batch_line_candidates(content.push('\n') + line).len() > 0,
        batch_line_candidates(content.push('\n') + line)[0] == trim(line),
        batch_line_candidates(content.push('\n') + line).drop_first() == batch_line_candidates(
            content,
        ),
{
    lemma_split_lines_append(content, line);
    let p = split_lines(content).push(line);
    assert(p.drop_last() =~= split_lines(content));
    let n = nonblank(p);
    assert(n == nonblank(split_lines(content)).push(trim(line)));
    assert(n.reverse().drop_first() =~= nonblank(split_lines(content)).reverse());
}

/// The member rows are in descending order of net saved tokens, one per batch.
pub proof fn lemma_members_ranked(bs: Seq<SavingsBatch>)
    ensures
        ranked_members(bs).len() == bs.len(),
        forall|a: int, b: int|
            0 <= a < b < bs.len() ==> #[trigger] ranked_members(bs)[a].3 >= #[trigger] ranked_members(
                bs,
            )[b].3,
        ranked_members(bs).to_multiset() == Seq::new(bs.len(), |i: int| member_of(bs[i], i)).to_multiset(),
{
    lemma_sort_desc_sorted(Seq::new(bs.len(), |i: int| member_of(bs[i], i)), member_key());
    assert forall|a: int, b: int| 0 <= a < b < bs.len() implies #[trigger] ranked_members(bs)[a].3
        >= #[trigger] ranked_members(bs)[b].3 by {
        assert((member_key())(ranked_members(bs)[a]) >= (member_key())(ranked_members(bs)[b]));
    }
}

/// The model breakdown keeps at most ten models, in descending order of saved
/// tokens, and no model left out has more tokens than one kept.
pub proof fn lemma_models_ranked(bs: Seq<SavingsBatch>)
    ensures
        top_models(bs).len() <= 10,
        top_models(bs).len() == if model_totals(model_entries(bs)).len() <= 10 {
            model_totals(model_entries(bs)).len()
        } else {
            10
        },
        forall|a: int, b: int|
            0 <= a < b < top_models(bs).len() ==> #[trigger] top_models(bs)[a].1
                >= #[trigger] top_models(bs)[b].1,
        forall|a: int, b: int|
            0 <= a < top_models(bs).len() <= b < model_totals(model_entries(bs)).len()
                ==> #[trigger] top_models(bs)[a].1 >= #[trigger] sort_desc(
                model_totals(model_entries(bs)),
                model_key(),
            )[b].1,
{
    let t = model_totals(model_entries(bs));
    lemma_sort_desc_sorted(t, model_key());
    let r = sort_desc(t, model_key());
    assert forall|a: int, b: int| 0 <= a < b < r.len() implies #[trigger] r[a].1 >= #[trigger] r[b].1 by {
        assert((model_key())(r[a]) >= (model_key())(r[b]));
    }
}

/// The tokens of every entry named `m`, summed exactly.
pub open spec fn named_total(entries: Seq<(Seq<char>, u64)>, m: Seq<char>) -> int
    decreases entries.len(),
{
    if entries.len() == 0 {
        0
    } else {
        named_total(entries.drop_last(), m) + if entries.last().0 == m {
            entries.last().1 as int
        } else {
            0
        }
    }
}

proof fn lemma_named_total_nonneg(entries: Seq<(Seq<char>, u64)>, m: Seq<char>)
    ensures
        named_total(entries, m) >= 0,
    decreases entries.len(),
{
    if entries.len() > 0 {
        lemma_named_total_nonneg(entries.drop_last(), m);
    }
}

proof fn lemma_model_index(acc: Seq<(Seq<char>, u64)>, m: Seq<char>)
    ensures
        -1 <= model_index(acc, m) < acc.len(),
        model_index(acc, m) >= 0 ==> acc[model_index(acc, m)].0 == m,
        model_index(acc, m) == -1 ==> forall|i: int| 0 <= i < acc.len() ==> #[trigger] acc[i].0 != m,
    decreases acc.len(),
{
    if acc.len() > 0 && acc.last().0 != m {
        let t = acc.drop_last();
        lemma_model_index(t, m);
        if model_index(acc, m) == -1 {
            assert forall|i: int| 0 <= i < acc.len() implies #[trigger] acc[i].0 != m by {
                if i < t.len() {
                    assert(acc[i] == t[i]);
                }
            }
        }
    }
}

/// The per-model totals list every model once, each with the saturating sum
/// of the tokens of all entries bearing its name, and every model of the
/// entries is listed.
pub proof fn lemma_model_totals_sum_by_name(entries: Seq<(Seq<char>, u64)>)
    ensures
        forall|a: int, b: int|
            0 <= a < b < model_totals(entries).len() ==> #[trigger] model_totals(entries)[a].0
                != #[trigger] model_totals(entries)[b].0,
        forall|i: int|
            0 <= i < model_totals(entries).len() ==> #[trigger] model_totals(entries)[i].1
                == saturate(named_total(entries, model_totals(entries)[i].0)),
        forall|m: Seq<char>|
            (forall|i: int| 0 <= i < model_totals(entries).len() ==> #[trigger] model_totals(
                entries,
            )[i].0 != m) ==> named_total(entries, m) == 0,
        forall|j: int|
            0 <= j < entries.len() ==> exists|i: int|
                0 <= i < model_totals(entries).len() && #[trigger] model_totals(entries)[i].0
                    == #[trigger] entries[j].0,
    decreases entries.len(),
{
    if entries.len() > 0 {
        let prev = entries.drop_last();
        lemma_model_totals_sum_by_name(prev);
        let acc = model_totals(prev);
        let e = entries.last();
        let t = model_totals(entries);
        lemma_model_index(acc, e.0);
        let k = model_index(acc, e.0);
        assert forall|m: Seq<char>| #[trigger] named_total(entries, m) == named_total(prev, m) + if e.0
            == m {
            e.1 as int
        } else {
            0
        } by {}
        if k >= 0 {
            assert(t == acc.update(k, (e.0, saturate(acc[k].1 + e.1) as u64)));
            assert forall|i: int| 0 <= i < t.len() implies #[trigger] t[i].1 == saturate(
                named_total(entries, t[i].0),
            ) by {
                lemma_named_total_nonneg(prev, t[i].0);
                if i != k {
                    assert(t[i] == acc[i]);
                    assert(acc[i].0 != acc[k].0);
                }
            }
            assert forall|a: int, b: int| 0 <= a < b < t.len() implies #[trigger] t[a].0
                != #[trigger] t[b].0 by {
                assert(t[a].0 == acc[a].0 && t[b].0 == acc[b].0);
            }
            assert forall|m: Seq<char>|
                (forall|i: int| 0 <= i < t.len() ==> #[trigger] t[i].0 != m) implies named_total(
                entries,
                m,
            ) == 0 by {
                assert forall|i: int| 0 <= i < acc.len() implies #[trigger] acc[i].0 != m by {
                    assert(t[i].0 == acc[i].0);
                }
                assert(t[k].0 == e.0);
            }
            assert forall|j: int| 0 <= j < entries.len() implies exists|i: int|
                0 <= i < t.len() && #[trigger] t[i].0 == #[trigger] entries[j].0 by {
                if j < prev.len() {
                    assert(entries[j] == prev[j]);
                    let i = choose|i: int| 0 <= i < acc.len() && #[trigger] acc[i].0 == prev[j].0;
                    assert(t[i].0 == acc[i].0);
                } else {
                    assert(t[k].0 == entries[j].0);
                }
            }
        } else {
            assert(t == acc.push(e));
            assert(named_total(prev, e.0) == 0);
            assert forall|i: int| 0 <= i < t.len() implies #[trigger] t[i].1 == saturate(
                named_total(entries, t[i].0),
            ) by {
                if i < acc.len() {
                    assert(t[i] == acc[i]);
                    assert(acc[i].0 != e.0);
                }
            }
            assert forall|a: int, b: int| 0 <= a < b < t.len() implies #[trigger] t[a].0
                != #[trigger] t[b].0 by {
                assert(t[a] == acc[a]);
                if b < acc.len() {
                    assert(t[b] == acc[b]);
                }
            }
            assert forall|m: Seq<char>|
                (forall|i: int| 0 <= i < t.len() ==> #[trigger] t[i].0 != m) implies named_total(
                entries,
                m,
            ) == 0 by {
                assert forall|i: int| 0 <= i < acc.len() implies #[trigger] acc[i].0 != m by {
                    assert(t[i] == acc[i]);
                }
                assert(t[acc.len() as int].0 == e.0);
            }
            assert forall|j: int| 0 <= j < entries.len() implies exists|i: int|
                0 <= i < t.len() && #[trigger] t[i].0 == #[trigger] entries[j].0 by {
                if j < prev.len() {
                    assert(entries[j] == prev[j]);
                    let i = choose|i: int| 0 <= i < acc.len() && #[trigger] acc[i].0 == prev[j].0;
                    assert(t[i] == acc[i]);
                } else {
                    assert(t[acc.len() as int] == entries[j]);
                }
            }
        }
    }
}

/// The stable descending order only rearranges: each of its elements is an
/// element of the input, and elements with pairwise different names keep
/// pairwise different names.
pub proof fn lemma_sort_desc_rearranges<A, B>(s: Seq<A>, key: spec_fn(A) -> int, nm: spec_fn(A) -> B)
    requires
        forall|a: int, b: int| 0 <= a < b < s.len() ==> nm(#[trigger] s[a]) != nm(#[trigger] s[b]),
    ensures
        sort_desc(s, key).len() == s.len(),
        forall|i: int|
            0 <= i < s.len() ==> exists|j: int| 0 <= j < s.len() && #[trigger] sort_desc(s, key)[i] == s[j],
        forall|a: int, b: int|
            0 <= a < b < s.len() ==> nm(#[trigger] sort_desc(s, key)[a]) != nm(
                #[trigger] sort_desc(s, key)[b],
            ),
    decreases s.len(),
{
    if s.len() > 0 {
        let t = s.drop_last();
        assert forall|a: int, b: int| 0 <= a < b < t.len() implies nm(#[trigger] t[a]) != nm(
            #[trigger] t[b],
        ) by {
            assert(t[a] == s[a] && t[b] == s[b]);
        }
        lemma_sort_desc_rearranges(t, key, nm);
        let st = sort_desc(t, key);
        let x = s.last();
        lemma_insert_index(st, x, key);
        let j = insert_index(st, x, key);
        lemma_insert_desc_at(st, x, key, j);
        let r = st.insert(j, x);
        assert(r == sort_desc(s, key));
        assert forall|i: int| 0 <= i < r.len() implies exists|k: int| 0 <= k < s.len() && #[trigger] r[i]
            == s[k] by {
            if i < j {
                let k = choose|k: int| 0 <= k < t.len() && st[i] == t[k];
                assert(r[i] == st[i] && s[k] == t[k]);
            } else if i == j {
                assert(r[i] == s[s.len() - 1]);
            } else {
                let k = choose|k: int| 0 <= k < t.len() && st[i - 1] == t[k];
                assert(r[i] == st[i - 1] && s[k] == t[k]);
            }
        }
        assert forall|i: int| 0 <= i < st.len() implies nm(#[trigger] st[i]) != nm(x) by {
            let k = choose|k: int| 0 <= k < t.len() && st[i] == t[k];
            assert(s[k] == t[k]);
            assert(nm(s[k]) != nm(s[s.len() - 1]));
        }
        assert forall|a: int, b: int| 0 <= a < b < r.len() implies nm(#[trigger] r[a]) != nm(
            #[trigger] r[b],
        ) by {
            let ra = if a < j { st[a] } else if a == j { x } else { st[a - 1] };
            let rb = if b < j { st[b] } else if b == j { x } else { st[b - 1] };
            assert(r[a] == ra && r[b] == rb);
        }
    }
}

/// The model breakdown: each model is listed at most once, and its tokens are
/// the saturating sum of the tokens of every entry with its name over all the
/// batches. With fewer than ten rows, every model of the batches is listed.
pub proof fn lemma_model_breakdown_sums_by_name(bs: Seq<SavingsBatch>)
    ensures
        forall|a: int, b: int|
            0 <= a < b < top_models(bs).len() ==> #[trigger] top_models(bs)[a].0
                != #[trigger] top_models(bs)[b].0,
        forall|i: int|
            0 <= i < top_models(bs).len() ==> #[trigger] top_models(bs)[i].1 == saturate(
                named_total(model_entries(bs), top_models(bs)[i].0),
            ),
        top_models(bs).len() < 10 ==> forall|j: int|
            0 <= j < model_entries(bs).len() ==> exists|i: int|
                0 <= i < top_models(bs).len() && #[trigger] top_models(bs)[i].0
                    == #[trigger] model_entries(bs)[j].0,
{
    let e = model_entries(bs);
    let t = model_totals(e);
    lemma_model_totals_sum_by_name(e);
    let nm = |p: (Seq<char>, u64)| p.0;
    assert forall|a: int, b: int| 0 <= a < b < t.len() implies nm(#[trigger] t[a]) != nm(
        #[trigger] t[b],
    ) by {}
    lemma_sort_desc_rearranges(t, model_key(), nm);
    let r = sort_desc(t, model_key());
    let top = top_models(bs);
    assert forall|i: int| 0 <= i < top.len() implies #[trigger] top[i] == r[i] by {}
    assert forall|a: int, b: int| 0 <= a < b < top.len() implies #[trigger] top[a].0
        != #[trigger] top[b].0 by {
        assert(nm(r[a]) != nm(r[b]));
    }
    assert forall|i: int| 0 <= i < top.len() implies #[trigger] top[i].1 == saturate(
        named_total(e, top[i].0),
    ) by {
        let k = choose|k: int| 0 <= k < t.len() && r[i] == t[k];
        assert(t[k].1 == saturate(named_total(e, t[k].0)));
    }
    if top.len() < 10 {
        assert(top == r);
        assert forall|j: int| 0 <= j < e.len() implies exists|i: int|
            0 <= i < top.len() && #[trigger] top[i].0 == #[trigger] e[j].0 by {
            let k = choose|k: int| 0 <= k < t.len() && #[trigger] t[k].0 == e[j].0;
            // t[k] is somewhere in the ranking, which has the same length and distinct names
            lemma_sorted_holds_each(t, model_key(), k);
            let i = choose|i: int| 0 <= i < r.len() && r[i] == t[k];
            assert(top[i].0 == e[j].0);
        }
    }
}

/// Every element of the input occurs in its stable descending order.
proof fn lemma_sorted_holds_each<A>(s: Seq<A>, key: spec_fn(A) -> int, k: int)
    requires
        0 <= k < s.len(),
    ensures
        exists|i: int| 0 <= i < sort_desc(s, key).len() && sort_desc(s, key)[i] == s[k],
{
    lemma_sort_desc_sorted(s, key);
    assert(s.to_multiset().count(s[k]) > 0) by {
        vstd::seq_lib::to_multiset_contains(s, s[k]);
        assert(s.contains(s[k]));
    }
    vstd::seq_lib::to_multiset_contains(sort_desc(s, key), s[k]);
}

} // verus!
