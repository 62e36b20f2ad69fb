use vstd::prelude::*;

use crate::specification::{PlaceholderItem, TemplateConfiguration};
use crate::text::{copy_bytes, occurs_at, occurs_at_exec};
use crate::tree::{entry_view, is_safe_path, is_safe_path_exec, FileEntry};
use vstd::utf8::encode_utf8;

verus! {

pub const LBRACE: u8 = 123;

pub const RBRACE: u8 = 125;

/// The token that stands for a placeholder: its key between `{{` and `}}`.
pub open spec fn token(key: Seq<u8>) -> Seq<u8> {
    seq![LBRACE, LBRACE] + key + seq![RBRACE, RBRACE]
}

/// Each placeholder as the token it replaces and the bytes it replaces it with.
pub open spec fn substitutions(items: Seq<PlaceholderItem>) -> Seq<(Seq<u8>, Seq<u8>)> {
    items.map_values(|it: PlaceholderItem| (token(encode_utf8(it.template_key@)), it.answer@))
}

/// Substitution `j` has a non-empty token that occurs in `s` at `i`.
pub open spec fn matches_at(s: Seq<u8>, i: int, subs: Seq<(Seq<u8>, Seq<u8>)>, j: int) -> bool {
    0 <= j < subs.len() && subs[j].0.len() > 0 && occurs_at(s, i, subs[j].0)
}

/// `j` is the first substitution whose token occurs in `s` at `i`.
pub open spec fn is_first_match(s: Seq<u8>, i: int, subs: Seq<(Seq<u8>, Seq<u8>)>, j: int) -> bool {
    matches_at(s, i, subs, j) && forall|m: int| 0 <= m < j ==> !matches_at(s, i, subs, m)
}

/// `s` from index `i` on, with each token met in a left-to-right scan replaced
/// by its answer; text that no token matches is kept as it is.
pub open spec fn render_from(s: Seq<u8>, subs: Seq<(Seq<u8>, Seq<u8>)>, i: int) -> Seq<u8>
    decreases s.len() - i,
{
    if i < 0 || i >= s.len() {
        Seq::empty()
    } else if exists|j: int| is_first_match(s, i, subs, j) {
        let j = choose|j: int| is_first_match(s, i, subs, j);
        subs[j].1 + render_from(s, subs, i + subs[j].0.len())
    } else {
        seq![s[i]] + render_from(s, subs, i + 1)
    }
}

pub open spec fn render(s: Seq<u8>, subs: Seq<(Seq<u8>, Seq<u8>)>) -> Seq<u8> {
    render_from(s, subs, 0)
}

pub open spec fn subs_view(subs: Seq<(Vec<u8>, Vec<u8>)>) -> Seq<(Seq<u8>, Seq<u8>)> {
    subs.map_values(|p: (Vec<u8>, Vec<u8>)| (p.0@, p.1@))
}

fn append_bytes(out: &mut Vec<u8>, b: &[u8])
    ensures
        final(out)@ == old(out)@ + b@,
{
    let mut k: usize = 0;
    while k < b.len()
        invariant
            k <= b@.len(),
            out@ == old(out)@ + b@.take(k as int),
        decreases b@.len() - k,
    {
        out.push(b[k]);
        k = k + 1;
        assert(out@ =~= old(out)@ + b@.take(k as int));
    }
    assert(b@.take(k as int) =~= b@);
}

/// The first substitution whose token occurs in `s` at `i`.
fn first_match(s: &[u8], i: usize, subs: &Vec<(Vec<u8>, Vec<u8>)>) -> (r: Option<usize>)
    ensures
        r is Some ==> is_first_match(s@, i as int, subs_view(subs@), r->Some_0 as int),
        r is None ==> forall|j: int| !is_first_match(s@, i as int, subs_view(subs@), j),
{
    let ghost sv = subs_view(subs@);
    let mut j: usize = 0;
    while j < subs.len()
        invariant
            j <= subs@.len(),
            sv == subs_view(subs@),
            sv.len() == subs@.len(),
            forall|m: int| 0 <= m < j ==> !matches_at(s@, i as int, sv, m),
        decreases subs@.len() - j,
    {
        let tok = &subs[j].0;
        if tok.len() > 0 && occurs_at_exec(s, i, tok.as_slice()) {
            return Some(j);
        }
        j = j + 1;
    }
    None
}

/// Replaces, in one left-to-right scan, each token of `subs` by its answer.
pub fn render_text(s: &[u8], subs: &Vec<(Vec<u8>, Vec<u8>)>) -> (r: Vec<u8>)
    ensures
        r@ == render(s@, subs_view(subs@)),
{
    let ghost sv = subs_view(subs@);
    let mut out: Vec<u8> = Vec::new();
    let mut i: usize = 0;
    while i < s.len()
        invariant
            i <= s@.len(),
            sv == subs_view(subs@),
            render(s@, sv) == out@ + render_from(s@, sv, i as int),
        decreases s@.len() - i,
    {
        match first_match(s, i, subs) {
            Some(j) => {
                let ghost c = choose|c: int| is_first_match(s@, i as int, sv, c);
                assert(c == j as int) by {
                    if c < j {
                        assert(!matches_at(s@, i as int, sv, c));
                    } else if c > j {
                        assert(!matches_at(s@, i as int, sv, j as int));
                    }
                };
                append_bytes(&mut out, subs[j].1.as_slice());
                i = i + subs[j].0.len();
            },
            None => {
                out.push(s[i]);
                i = i + 1;
            },
        }
    }
    assert(out@ + render_from(s@, sv, i as int) =~= out@);
    out
}

fn token_exec(key: &String) -> (r: Vec<u8>)
    ensures
        r@ == token(encode_utf8(key@)),
{
    let mut t: Vec<u8> = Vec::new();
    t.push(LBRACE);
    t.push(LBRACE);
    append_bytes(&mut t, key.as_str().as_bytes());
    t.push(RBRACE);
    t.push(RBRACE);
    assert(t@ =~= token(encode_utf8(key@)));
    t
}

/// The token and answer of each placeholder, in order.
pub fn substitutions_exec(items: &Vec<PlaceholderItem>) -> (r: Vec<(Vec<u8>, Vec<u8>)>)
    ensures
        subs_view(r@) == substitutions(items@),
{
    let mut r: Vec<(Vec<u8>, Vec<u8>)> = Vec::new();
    let mut k: usize = 0;
    while k < items.len()
        invariant
            k <= items@.len(),
            r@.len() == k,
            forall|m: int| 0 <= m < k ==> (#[trigger] r@[m].0@, r@[m].1@) == (
                token(encode_utf8(items@[m].template_key@)),
                items@[m].answer@,
            ),
        decreases items@.len() - k,
    {
        let pair = (token_exec(&items[k].template_key), copy_bytes(items[k].answer.as_slice()));
        r.push(pair);
        k = k + 1;
    }
    assert(subs_view(r@) =~= substitutions(items@));
    r
}

/// A file's path and content with the substitutions made.
pub open spec fn rendered(e: (Seq<u8>, Seq<u8>), subs: Seq<(Seq<u8>, Seq<u8>)>) -> (Seq<u8>, Seq<u8>) {
    (render(e.0, subs), render(e.1, subs))
}

pub enum RenderError {
    /// A rendered path would leave the destination.
    UnsafePath(Vec<u8>),
    /// Writing the file at the path failed, for the reason given.
    WriteError(Vec<u8>, String),
    /// A file already stands at the path, and overwriting was not asked for.
    DestinationConflict(Vec<u8>),
}

/// What rendering a configuration gives: every file rendered in order, or the
/// first rendered path that would leave the destination.
pub open spec fn plan_outcome(
    entries: Seq<(Seq<u8>, Seq<u8>)>,
    subs: Seq<(Seq<u8>, Seq<u8>)>,
    r: Result<Vec<FileEntry>, RenderError>,
) -> bool {
    match r {
        Ok(plan) => {
            &&& plan@.len() == entries.len()
            &&& forall|k: int| 0 <= k < entries.len() ==> #[trigger] entry_view(plan@[k]) == rendered(entries[k], subs)
            &&& forall|k: int| 0 <= k < entries.len() ==> is_safe_path(#[trigger] rendered(entries[k], subs).0)
        },
        Err(e) => exists|k: int| #[trigger] is_first_unsafe(entries, subs, k)
            && e is UnsafePath && e->UnsafePath_0@ == rendered(entries[k], subs).0,
    }
}

/// File `k` is the first whose rendered path would leave the destination.
pub open spec fn is_first_unsafe(entries: Seq<(Seq<u8>, Seq<u8>)>, subs: Seq<(Seq<u8>, Seq<u8>)>, k: int) -> bool {
    &&& 0 <= k < entries.len()
    &&& !is_safe_path(rendered(entries[k], subs).0)
    &&& forall|m: int| 0 <= m < k ==> is_safe_path(#[trigger] rendered(entries[m], subs).0)
}

/// Renders every file of a configuration with its placeholders' answers.
pub fn render_plan(configuration: &TemplateConfiguration) -> (r: Result<Vec<FileEntry>, RenderError>)
    ensures
        plan_outcome(
            configuration.file_list.entries(),
            substitutions(configuration.template_specification.placeholders@),
            r,
        ),
{
    let subs = substitutions_exec(&configuration.template_specification.placeholders);
    let ghost sv = subs_view(subs@);
    let files = &configuration.file_list.files;
    let ghost entries = configuration.file_list.entries();
    let mut plan: Vec<FileEntry> = Vec::new();
    let mut k: usize = 0;
    while k < files.len()
        invariant
            k <= files@.len(),
            entries == files@.map_values(|e: FileEntry| entry_view(e)),
            entries == configuration.file_list.entries(),
            sv == subs_view(subs@),
            sv == substitutions(configuration.template_specification.placeholders@),
            plan@.len() == k,
            forall|m: int| 0 <= m < k ==> #[trigger] entry_view(plan@[m]) == rendered(entries[m], sv),
            forall|m: int| 0 <= m < k ==> is_safe_path(#[trigger] rendered(entries[m], sv).0),
        decreases files@.len() - k,
    {
        let path = render_text(files[k].relative_path.as_slice(), &subs);
        assert(path@ == rendered(entries[k as int], sv).0);
        if !is_safe_path_exec(path.as_slice()) {
            assert(!is_safe_path(rendered(entries[k as int], sv).0));
            assert(is_first_unsafe(entries, sv, k as int));
            return Err(RenderError::UnsafePath(path));
        }
        let content = render_text(files[k].content.as_slice(), &subs);
        plan.push(FileEntry { relative_path: path, content });
        k = k + 1;
    }
    Ok(plan)
}

/// Every `{` of `s`, from index `i` on, opens a token that the scan replaces.
pub open spec fn braces_only_in_tokens(s: Seq<u8>, subs: Seq<(Seq<u8>, Seq<u8>)>, i: int) -> bool
    decreases s.len() - i,
{
    if i < 0 || i >= s.len() {
        true
    } else if exists|j: int| is_first_match(s, i, subs, j) {
        let j = choose|j: int| is_first_match(s, i, subs, j);
        braces_only_in_tokens(s, subs, i + subs[j].0.len())
    } else {
        s[i] != LBRACE && braces_only_in_tokens(s, subs, i + 1)
    }
}

pub open spec fn has_no_lbrace(s: Seq<u8>) -> bool {
    forall|x: int| 0 <= x < s.len() ==> #[trigger] s[x] != LBRACE
}

proof fn lemma_render_has_no_lbrace(s: Seq<u8>, subs: Seq<(Seq<u8>, Seq<u8>)>, i: int)
    requires
        forall|j: int| 0 <= j < subs.len() ==> has_no_lbrace(#[trigger] subs[j].1),
        braces_only_in_tokens(s, subs, i),
    ensures
        has_no_lbrace(render_from(s, subs, i)),
    decreases s.len() - i,
{
    if i < 0 || i >= s.len() {
    } else if exists|j: int| is_first_match(s, i, subs, j) {
        let j = choose|j: int| is_first_match(s, i, subs, j);
        lemma_render_has_no_lbrace(s, subs, i + subs[j].0.len());
        let a = subs[j].1;
        let b = render_from(s, subs, i + subs[j].0.len());
        assert(has_no_lbrace(a));
        assert forall|x: int| 0 <= x < (a + b).len() implies #[trigger] (a + b)[x] != LBRACE by {
            if x < a.len() {
                assert((a + b)[x] == a[x]);
            } else {
                assert((a + b)[x] == b[x - a.len()]);
            }
        }
    } else {
        lemma_render_has_no_lbrace(s, subs, i + 1);
        let b = render_from(s, subs, i + 1);
        assert forall|x: int| 0 <= x < (seq![s[i]] + b).len() implies #[trigger] (seq![s[i]] + b)[x] != LBRACE by {
            if x > 0 {
                assert((seq![s[i]] + b)[x] == b[x - 1]);
            }
        }
    }
}

/// Where no answer holds a `{` and every `{` of the text opens a token that is
/// replaced, no placeholder's token occurs anywhere in the rendered text.
pub proof fn lemma_resolved_tokens_leave_no_trace(s: Seq<u8>, items: Seq<PlaceholderItem>)
    requires
        forall|j: int| 0 <= j < items.len() ==> has_no_lbrace(#[trigger] items[j].answer@),
        braces_only_in_tokens(s, substitutions(items), 0),
    ensures
        forall|p: int, j: int|
            0 <= j < items.len() ==> !#[trigger] occurs_at(
                render(s, substitutions(items)),
                p,
                token(encode_utf8(items[j].template_key@)),
            ),
{
    let subs = substitutions(items);
    assert forall|j: int| 0 <= j < subs.len() implies has_no_lbrace(#[trigger] subs[j].1) by {
        assert(subs[j].1 == items[j].answer@);
    }
    lemma_render_has_no_lbrace(s, subs, 0);
    let out = render(s, subs);
    assert forall|p: int, j: int|
        0 <= j < items.len() implies !#[trigger] occurs_at(out, p, token(encode_utf8(items[j].template_key@))) by {
        let t = token(encode_utf8(items[j].template_key@));
        if occurs_at(out, p, t) {
            assert(out.subrange(p, p + t.len())[0] == out[p]);
            assert(t[0] == LBRACE);
        }
    }
}

/// The scan from `i` of `p + q` past `p` is the scan of `q`.
proof fn lemma_render_shift(p: Seq<u8>, q: Seq<u8>, subs: Seq<(Seq<u8>, Seq<u8>)>, i: int)
    requires
        0 <= i <= q.len(),
    ensures
        render_from(p + q, subs, p.len() + i) == render_from(q, subs, i),
    decreases q.len() - i,
{
    let s = p + q;
    if i < q.len() {
        assert forall|j: int|
            #![trigger matches_at(s, p.len() + i, subs, j)]
            #![trigger matches_at(q, i, subs, j)]
            matches_at(s, p.len() + i, subs, j) == matches_at(q, i, subs, j) by {
            if 0 <= j < subs.len() && i + subs[j].0.len() <= q.len() {
                assert(s.subrange(p.len() + i, p.len() + i + subs[j].0.len()) =~= q.subrange(i, i + subs[j].0.len()));
            }
        }
        let pi = p.len() + i;
        assert forall|j: int|
            #![trigger is_first_match(s, pi, subs, j)]
            #![trigger is_first_match(q, i, subs, j)]
            is_first_match(s, pi, subs, j) == is_first_match(q, i, subs, j) by {
            assert(matches_at(s, pi, subs, j) == matches_at(q, i, subs, j));
        }
        assert(s[p.len() + i] == q[i]);
        if exists|j: int| is_first_match(q, i, subs, j) {
            let j = choose|j: int| is_first_match(q, i, subs, j);
            let j1 = choose|j: int| is_first_match(s, pi, subs, j);
            assert(is_first_match(q, i, subs, j1));
            assert(j1 == j) by {
                if j1 < j {
                    assert(!matches_at(q, i, subs, j1));
                } else if j1 > j {
                    assert(!matches_at(q, i, subs, j));
                }
            };
            lemma_render_shift(p, q, subs, i + subs[j].0.len());
            assert(render_from(s, subs, pi) == subs[j].1 + render_from(s, subs, pi + subs[j].0.len()));
            assert(render_from(q, subs, i) == subs[j].1 + render_from(q, subs, i + subs[j].0.len()));
        } else {
            assert forall|j: int| !is_first_match(s, pi, subs, j) by {
                assert(!is_first_match(q, i, subs, j));
            }
            lemma_render_shift(p, q, subs, i + 1);
            assert(render_from(s, subs, pi) == seq![s[pi]] + render_from(s, subs, pi + 1));
        }
    }
}

pub open spec fn has_no_brace(s: Seq<u8>) -> bool {
    forall|x: int| 0 <= x < s.len() ==> #[trigger] s[x] != LBRACE && s[x] != RBRACE
}

/// The key that a token wraps.
pub open spec fn key_of(t: Seq<u8>) -> Seq<u8> {
    t.subrange(2, t.len() - 2)
}

/// `t` is the token of a key without braces other than `k`.
pub open spec fn is_other_token(t: Seq<u8>, k: Seq<u8>) -> bool {
    &&& t.len() >= 4
    &&& t == token(key_of(t))
    &&& has_no_brace(key_of(t))
    &&& key_of(t) != k
}

proof fn lemma_unknown_token_no_match(k: Seq<u8>, rest: Seq<u8>, subs: Seq<(Seq<u8>, Seq<u8>)>, i: int, j: int)
    requires
        has_no_brace(k),
        forall|m: int| 0 <= m < subs.len() ==> is_other_token(#[trigger] subs[m].0, k),
        0 <= i < token(k).len(),
    ensures
        !matches_at(token(k) + rest, i, subs, j),
{
    let s = token(k) + rest;
    let l = token(k).len();
    assert forall|x: int| 0 <= x < l implies #[trigger] s[x] == token(k)[x] by {}
    assert forall|x: int| 2 <= x < l - 2 implies #[trigger] s[x] == k[x - 2] by {}
    if matches_at(s, i, subs, j) {
        let t = subs[j].0;
        let km = key_of(t);
        assert(is_other_token(t, k));
        let n = t.len();
        assert forall|d: int| 0 <= d < n implies #[trigger] s[i + d] == t[d] by {
            assert(s.subrange(i, i + n)[d] == s[i + d]);
        }
        assert(t[0] == LBRACE && t[1] == LBRACE);
        assert(s[i] == LBRACE && s[i + 1] == LBRACE);
        if i >= 2 {
            assert(s[i] == k[i - 2] || s[i] == RBRACE);
        } else if i == 1 {
            assert(s[2] == LBRACE);
            if k.len() > 0 {
                assert(s[2] == k[0]);
            } else {
                assert(s[2] == RBRACE);
            }
        } else {
            assert(t[n - 2] == RBRACE);
            assert(s[n - 2] == RBRACE);
            if n - 2 < l - 2 {
                assert(s[n - 2] == k[n - 4]);
            } else if n - 2 > l - 2 {
                assert(t[l - 2] == km[l - 4]);
                assert(s[l - 2] == RBRACE);
            } else {
                assert forall|x: int| 0 <= x < k.len() implies km[x] == k[x] by {
                    assert(t[x + 2] == km[x]);
                    assert(s[x + 2] == k[x]);
                }
                assert(km =~= k);
            }
        }
    }
}

proof fn lemma_unknown_token_kept_at_start(k: Seq<u8>, rest: Seq<u8>, items: Seq<PlaceholderItem>)
    requires
        has_no_brace(k),
        forall|m: int| 0 <= m < items.len() ==> has_no_brace(encode_utf8(#[trigger] items[m].template_key@)),
        forall|m: int| 0 <= m < items.len() ==> encode_utf8(#[trigger] items[m].template_key@) != k,
    ensures
        render(token(k) + rest, substitutions(items)) == token(k) + render(rest, substitutions(items)),
{
    let subs = substitutions(items);
    assert forall|m: int| 0 <= m < subs.len() implies is_other_token(#[trigger] subs[m].0, k) by {
        let km = encode_utf8(items[m].template_key@);
        assert(subs[m].0 == token(km));
        assert(key_of(token(km)) =~= km);
    }
    let s = token(k) + rest;
    let l = token(k).len();
    lemma_kept_prefix(k, rest, subs, 0);
    lemma_render_shift(token(k), rest, subs, 0);
    assert(s.subrange(0, l as int) =~= token(k));
}

proof fn lemma_kept_prefix(k: Seq<u8>, rest: Seq<u8>, subs: Seq<(Seq<u8>, Seq<u8>)>, i: int)
    requires
        has_no_brace(k),
        forall|m: int| 0 <= m < subs.len() ==> is_other_token(#[trigger] subs[m].0, k),
        0 <= i <= token(k).len(),
    ensures
        render_from(token(k) + rest, subs, i) == (token(k) + rest).subrange(i, token(k).len() as int) + render_from(
            token(k) + rest,
            subs,
            token(k).len() as int,
        ),
    decreases token(k).len() - i,
{
    let s = token(k) + rest;
    let l = token(k).len() as int;
    if i < l {
        assert forall|j: int| !is_first_match(s, i, subs, j) by {
            lemma_unknown_token_no_match(k, rest, subs, i, j);
        }
        lemma_kept_prefix(k, rest, subs, i + 1);
        assert(s.subrange(i, l) =~= seq![s[i]] + s.subrange(i + 1, l));
    } else {
        assert(s.subrange(i, l) =~= Seq::<u8>::empty());
    }
}

/// Text without a `{` is copied as it is, up to where it ends.
proof fn lemma_brace_free_prefix(p: Seq<u8>, q: Seq<u8>, subs: Seq<(Seq<u8>, Seq<u8>)>, i: int)
    requires
        has_no_lbrace(p),
        forall|m: int| 0 <= m < subs.len() && subs[m].0.len() > 0 ==> (#[trigger] subs[m].0)[0] == LBRACE,
        0 <= i <= p.len(),
    ensures
        render_from(p + q, subs, i) == p.subrange(i, p.len() as int) + render_from(p + q, subs, p.len() as int),
    decreases p.len() - i,
{
    let s = p + q;
    if i < p.len() {
        assert(s[i] == p[i]);
        assert forall|j: int| !is_first_match(s, i, subs, j) by {
            if matches_at(s, i, subs, j) {
                assert(s.subrange(i, i + subs[j].0.len())[0] == s[i]);
            }
        }
        lemma_brace_free_prefix(p, q, subs, i + 1);
        assert(p.subrange(i, p.len() as int) =~= seq![p[i]] + p.subrange(i + 1, p.len() as int));
    } else {
        assert(p.subrange(i, p.len() as int) =~= Seq::<u8>::empty());
    }
}

/// A token whose key is no placeholder's, where no key holds a brace, comes out
/// of rendering as it went in, after any text without a `{`; what follows it
/// is rendered on its own.
pub proof fn lemma_unknown_token_kept(
    before: Seq<u8>,
    k: Seq<u8>,
    rest: Seq<u8>,
    items: Seq<PlaceholderItem>,
)
    requires
        has_no_lbrace(before),
        has_no_brace(k),
        forall|m: int| 0 <= m < items.len() ==> has_no_brace(encode_utf8(#[trigger] items[m].template_key@)),
        forall|m: int| 0 <= m < items.len() ==> encode_utf8(#[trigger] items[m].template_key@) != k,
    ensures
        render(before + token(k) + rest, substitutions(items)) == before + token(k) + render(
            rest,
            substitutions(items),
        ),
{
    let subs = substitutions(items);
    let q = token(k) + rest;
    assert forall|m: int| 0 <= m < subs.len() && subs[m].0.len() > 0 implies (#[trigger] subs[m].0)[0] == LBRACE by {
        assert(subs[m].0 == token(encode_utf8(items[m].template_key@)));
    }
    lemma_brace_free_prefix(before, q, subs, 0);
    lemma_render_shift(before, q, subs, 0);
    lemma_unknown_token_kept_at_start(k, rest, items);
    assert(before + token(k) + rest =~= before + q);
    assert(before.subrange(0, before.len() as int) =~= before);
    assert(before + token(k) + render(rest, subs) =~= before + (token(k) + render(rest, subs)));
}

} // verus!
