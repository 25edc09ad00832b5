use vstd::prelude::*;

use crate::config::SecretPolicy;
use crate::secret::{decrypt_base64_string, decrypted, is_base64_char, DecodeError};
use crate::text::{chars_of, string_of};

verus! {

/// Whether `s` starts with the marker `{enc:` that opens a secret token.
pub open spec fn opens_token(s: Seq<char>) -> bool {
    s.len() >= 5 && s.take(5) == seq!['{', 'e', 'n', 'c', ':']
}

/// The first `}` of `s` at or after `k`, unless a line break comes first.
pub open spec fn closing_brace(s: Seq<char>, k: int) -> Option<int>
    decreases s.len() - k,
{
    if k < 0 || k >= s.len() {
        None
    } else if s[k] == '}' {
        Some(k)
    } else if s[k] == '\n' {
        None
    } else {
        closing_brace(s, k + 1)
    }
}

/// Where the secret token at the start of `s` closes, if one starts there.
pub open spec fn token_end(s: Seq<char>) -> Option<int> {
    if opens_token(s) {
        closing_brace(s, 5)
    } else {
        None
    }
}

/// The envelopes of the secret tokens of `s`, read left to right without overlap.
pub open spec fn secret_payloads(s: Seq<char>) -> Seq<Seq<char>>
    decreases s.len(),
{
    if s.len() == 0 {
        Seq::empty()
    } else {
        match token_end(s) {
            Some(q) => if 5 <= q < s.len() {
                seq![s.subrange(5, q)] + secret_payloads(s.skip(q + 1))
            } else {
                Seq::empty()
            },
            None => secret_payloads(s.drop_first()),
        }
    }
}

/// What is left of `p` once its first item has been used.
pub open spec fn rest_of(p: Seq<Option<Seq<char>>>) -> Seq<Option<Seq<char>>> {
    if p.len() > 0 {
        p.drop_first()
    } else {
        p
    }
}

/// `s` with its i-th secret token replaced by `plains[i]`. A token whose entry is
/// missing or `None` is kept as it stands when `keep` holds, and fails the whole
/// text otherwise.
pub open spec fn render(s: Seq<char>, plains: Seq<Option<Seq<char>>>, keep: bool) -> Option<
    Seq<char>,
>
    decreases s.len(),
{
    if s.len() == 0 {
        Some(Seq::empty())
    } else {
        match token_end(s) {
            Some(q) => if 5 <= q < s.len() {
                match render(s.skip(q + 1), rest_of(plains), keep) {
                    None => None,
                    Some(rest) => if plains.len() > 0 && plains[0] is Some {
                        Some(plains[0]->0 + rest)
                    } else if keep {
                        Some(s.take(q + 1) + rest)
                    } else {
                        None
                    },
                }
            } else {
                None
            },
            None => match render(s.drop_first(), plains, keep) {
                None => None,
                Some(rest) => Some(seq![s[0]] + rest),
            },
        }
    }
}

/// The texts of a sequence of optional strings.
pub open spec fn optional_texts(p: Seq<Option<String>>) -> Seq<Option<Seq<char>>> {
    p.map_values(|o: Option<String>| match o {
        Some(t) => Some(t@),
        None => None,
    })
}

/// The texts of a sequence of strings.
pub open spec fn texts(p: Seq<String>) -> Seq<Seq<char>> {
    p.map_values(|t: String| t@)
}

/// What each envelope decrypts to under `key`.
pub open spec fn decryptions(key: Seq<char>, envelopes: Seq<Seq<char>>) -> Seq<Option<Seq<char>>> {
    envelopes.map_values(|e: Seq<char>| decrypted(key, e))
}

pub open spec fn keeps_tokens(policy: SecretPolicy) -> bool {
    policy == SecretPolicy::KeepToken
}

pub proof fn lemma_closing_brace_bounds(s: Seq<char>, k: int)
    ensures
        closing_brace(s, k) matches Some(q) ==> k <= q < s.len() && s[q] == '}',
    decreases s.len() - k,
{
    if 0 <= k < s.len() && s[k] != '}' && s[k] != '\n' {
        lemma_closing_brace_bounds(s, k + 1);
    }
}

/// The secret token `{enc:<envelope>}`.
pub open spec fn token_of(envelope: Seq<char>) -> Seq<char> {
    seq!['{', 'e', 'n', 'c', ':'] + envelope + seq!['}']
}

/// Whether `s` holds no `{`, so that no secret token starts in it.
pub open spec fn without_braces(s: Seq<char>) -> bool {
    forall|i: int| 0 <= i < s.len() ==> s[i] != '{'
}

proof fn lemma_closing_of_token(envelope: Seq<char>, rest: Seq<char>, k: int)
    requires
        forall|i: int| 0 <= i < envelope.len() ==> is_base64_char(#[trigger] envelope[i]),
        5 <= k <= 5 + envelope.len(),
    ensures
        closing_brace(token_of(envelope) + rest, k) == Some((5 + envelope.len()) as int),
    decreases 5 + envelope.len() - k,
{
    let s = token_of(envelope) + rest;
    if k < 5 + envelope.len() {
        assert(s[k] == envelope[k - 5]);
        assert(is_base64_char(envelope[k - 5]));
        lemma_closing_of_token(envelope, rest, k + 1);
    } else {
        assert(s[k] == '}');
    }
}

/// Text without braces in front of `tail` changes neither which tokens are found nor
/// how they are replaced.
pub proof fn lemma_text_before_tokens(
    pre: Seq<char>,
    tail: Seq<char>,
    plains: Seq<Option<Seq<char>>>,
    keep: bool,
)
    requires
        without_braces(pre),
    ensures
        secret_payloads(pre + tail) == secret_payloads(tail),
        render(pre + tail, plains, keep) == glue(pre, render(tail, plains, keep)),
    decreases pre.len(),
{
    if pre.len() == 0 {
        assert(pre + tail =~= tail);
        if let Some(t) = render(tail, plains, keep) {
            assert(pre + t =~= t);
        }
    } else {
        let s = pre + tail;
        assert(s[0] == pre[0]);
        assert(!opens_token(s)) by {
            if opens_token(s) {
                assert(s.take(5)[0] == s[0]);
            }
        }
        assert(s.drop_first() =~= pre.drop_first() + tail);
        lemma_text_before_tokens(pre.drop_first(), tail, plains, keep);
        if let Some(t) = render(tail, plains, keep) {
            assert(seq![s[0]] + (pre.drop_first() + t) =~= pre + t);
        }
    }
}

/// A secret written as `{enc:<envelope>}`, with `envelope` in base64 and text without
/// braces around it, is read as one token holding that envelope. If the envelope
/// decrypts under `key` the token is replaced by the plaintext; if not, the text fails
/// under the fail-closed policy and is served unchanged under the other one.
pub proof fn lemma_secret_in_place(
    key: Seq<char>,
    pre: Seq<char>,
    envelope: Seq<char>,
    post: Seq<char>,
)
    requires
        without_braces(pre),
        without_braces(post),
        forall|i: int| 0 <= i < envelope.len() ==> is_base64_char(#[trigger] envelope[i]),
    ensures
        secret_payloads(pre + token_of(envelope) + post) == seq![envelope],
        decrypted(key, envelope) matches Some(p) ==> forall|keep: bool|
            #[trigger] render(
                pre + token_of(envelope) + post,
                decryptions(key, secret_payloads(pre + token_of(envelope) + post)),
                keep,
            ) == Some(pre + p + post),
        decrypted(key, envelope) is None ==> render(
            pre + token_of(envelope) + post,
            decryptions(key, secret_payloads(pre + token_of(envelope) + post)),
            false,
        ) is None,
        decrypted(key, envelope) is None ==> render(
            pre + token_of(envelope) + post,
            decryptions(key, secret_payloads(pre + token_of(envelope) + post)),
            true,
        ) == Some(pre + token_of(envelope) + post),
{
    let tok = token_of(envelope);
    let t = tok + post;
    let q = (5 + envelope.len()) as int;
    assert(pre + tok + post =~= pre + t);
    assert(t.take(5) =~= seq!['{', 'e', 'n', 'c', ':']);
    lemma_closing_of_token(envelope, post, 5);
    assert(token_end(t) == Some(q));
    assert(t.skip(q + 1) =~= post);
    assert(t.subrange(5, q) =~= envelope);
    assert(t.take(q + 1) =~= tok);
    let none = Seq::<Option<Seq<char>>>::empty();
    lemma_text_before_tokens(post, Seq::<char>::empty(), none, true);
    lemma_text_before_tokens(post, Seq::<char>::empty(), none, false);
    assert(post + Seq::<char>::empty() =~= post);
    assert(secret_payloads(Seq::<char>::empty()) =~= Seq::<Seq<char>>::empty());
    assert(secret_payloads(t) =~= seq![envelope]);
    let d = decryptions(key, seq![envelope]);
    assert(d =~= seq![decrypted(key, envelope)]);
    assert(rest_of(d) =~= none);
    assert forall|keep: bool| #[trigger] render(pre + t, d, keep) == glue(pre, render(t, d, keep)) by {
        lemma_text_before_tokens(pre, t, d, keep);
    }
    lemma_text_before_tokens(pre, t, Seq::<Option<Seq<char>>>::empty(), true);
    if let Some(p) = decrypted(key, envelope) {
        assert forall|keep: bool|
            #[trigger] render(pre + tok + post, d, keep) == Some(pre + p + post) by {
            lemma_text_before_tokens(pre, t, d, keep);
            lemma_text_before_tokens(post, Seq::<char>::empty(), none, keep);
            assert(pre + (p + post) =~= pre + p + post);
        }
    } else {
        assert(pre + (tok + post) =~= pre + tok + post);
    }
}

/// A text without braces holds no secret and is served as it stands.
pub proof fn lemma_plain_text_unchanged(key: Seq<char>, s: Seq<char>, keep: bool)
    requires
        without_braces(s),
    ensures
        secret_payloads(s) == Seq::<Seq<char>>::empty(),
        render(s, decryptions(key, secret_payloads(s)), keep) == Some(s),
{
    let none = Seq::<Option<Seq<char>>>::empty();
    lemma_text_before_tokens(s, Seq::<char>::empty(), none, keep);
    assert(s + Seq::<char>::empty() =~= s);
    assert(secret_payloads(Seq::<char>::empty()) =~= Seq::<Seq<char>>::empty());
    assert(decryptions(key, Seq::<Seq<char>>::empty()) =~= none);
}

/// Where the secret token starting at `i` closes, if one starts there.
fn token_end_at(v: &Vec<char>, i: usize) -> (r: Option<usize>)
    requires
        i <= v.len(),
    ensures
        match r {
            Some(e) => token_end(v@.skip(i as int)) == Some(e - i) && i + 5 <= e < v.len(),
            None => token_end(v@.skip(i as int)) is None,
        },
{
    let ghost s = v@.skip(i as int);
    if v.len() - i < 5 || v[i] != '{' || v[i + 1] != 'e' || v[i + 2] != 'n' || v[i + 3] != 'c'
        || v[i + 4] != ':' {
        proof {
            if s.len() >= 5 {
                assert(s.take(5)[0] == s[0] && s.take(5)[1] == s[1] && s.take(5)[2] == s[2]
                    && s.take(5)[3] == s[3] && s.take(5)[4] == s[4]);
            }
        }
        return None;
    }
    assert(s.take(5) =~= seq!['{', 'e', 'n', 'c', ':']);
    let mut k: usize = i + 5;
    while k < v.len()
        invariant
            s == v@.skip(i as int),
            i + 5 <= k <= v.len(),
            opens_token(s),
            closing_brace(s, 5) == closing_brace(s, k - i),
        decreases v.len() - k,
    {
        if v[k] == '}' {
            return Some(k);
        }
        if v[k] == '\n' {
            return None;
        }
        k = k + 1;
    }
    None
}

/// Appends `v[from..to]` to `out`.
fn push_range(out: &mut Vec<char>, v: &Vec<char>, from: usize, to: usize)
    requires
        from <= to <= v.len(),
    ensures
        final(out)@ == old(out)@ + v@.subrange(from as int, to as int),
{
    let mut k: usize = from;
    while k < to
        invariant
            from <= k <= to <= v.len(),
            out@ == old(out)@ + v@.subrange(from as int, k as int),
        decreases to - k,
    {
        out.push(v[k]);
        k = k + 1;
        assert(out@ =~= old(out)@ + v@.subrange(from as int, k as int));
    }
}

/// The envelopes of the secret tokens `{enc:<envelope>}` of `content`, in order.
pub fn secret_payloads_of(content: &str) -> (r: Vec<String>)
    ensures
        texts(r@) == secret_payloads(content@),
{
    let v = chars_of(content);
    let mut out: Vec<String> = Vec::new();
    let mut i: usize = 0;
    assert(v@.skip(0) =~= v@);
    while i < v.len()
        invariant
            v@ == content@,
            i <= v.len(),
            secret_payloads(v@) == texts(out@) + secret_payloads(v@.skip(i as int)),
        decreases v.len() - i,
    {
        let ghost s = v@.skip(i as int);
        match token_end_at(&v, i) {
            Some(e) => {
                let mut p: Vec<char> = Vec::new();
                push_range(&mut p, &v, i + 5, e);
                let t = string_of(&p);
                let ghost before = out@;
                out.push(t);
                proof {
                    assert(s.skip(e - i + 1) =~= v@.skip(e + 1));
                    assert(s.subrange(5, e - i) =~= v@.subrange(i + 5, e as int));
                    assert(texts(out@) =~= texts(before).push(t@));
                    assert(texts(out@) + secret_payloads(v@.skip(e + 1)) =~= texts(before) + (
                    seq![t@] + secret_payloads(v@.skip(e + 1))));
                }
                i = e + 1;
            },
            None => {
                assert(s.drop_first() =~= v@.skip(i + 1));
                i = i + 1;
            },
        }
    }
    assert(texts(out@) + secret_payloads(v@.skip(i as int)) =~= texts(out@));
    out
}

/// `prefix` put in front of a rendered text, if there is one.
pub open spec fn glue(prefix: Seq<char>, r: Option<Seq<char>>) -> Option<Seq<char>> {
    match r {
        Some(t) => Some(prefix + t),
        None => None,
    }
}

/// Replaces the i-th secret token of `content` by `plaintexts[i]`. A token whose
/// entry is missing or `None` is kept under [`SecretPolicy::KeepToken`] and fails
/// the whole text under [`SecretPolicy::FailClosed`].
pub fn render_secrets(content: &str, plaintexts: &Vec<Option<String>>, policy: SecretPolicy) -> (r:
    Result<String, DecodeError>)
    ensures
        match r {
            Ok(t) => render(content@, optional_texts(plaintexts@), keeps_tokens(policy)) == Some(
                t@,
            ),
            Err(_) => render(content@, optional_texts(plaintexts@), keeps_tokens(policy)) is None,
        },
{
    let ghost keep = keeps_tokens(policy);
    let ghost all = optional_texts(plaintexts@);
    let v = chars_of(content);
    let mut out: Vec<char> = Vec::new();
    let mut i: usize = 0;
    let mut j: usize = 0;
    assert(v@.skip(0) =~= v@);
    assert(all.skip(0) =~= all);
    while i < v.len()
        invariant
            v@ == content@,
            i <= v.len(),
            j <= plaintexts.len(),
            all == optional_texts(plaintexts@),
            keep == keeps_tokens(policy),
            render(v@, all, keep) == glue(out@, render(v@.skip(i as int), all.skip(j as int), keep)),
        decreases v.len() - i,
    {
        let ghost s = v@.skip(i as int);
        let ghost p = all.skip(j as int);
        let ghost before = out@;
        match token_end_at(&v, i) {
            Some(e) => {
                let ghost q = e - i;
                proof {
                    assert(s.skip(q + 1) =~= v@.skip(e + 1));
                    if j < plaintexts.len() {
                        assert(rest_of(p) =~= all.skip(j + 1));
                    } else {
                        assert(rest_of(p) =~= all.skip(j as int));
                    }
                }
                let known = j < plaintexts.len() && plaintexts[j].is_some();
                if known {
                    let t = chars_of(plaintexts[j].as_ref().unwrap().as_str());
                    assert(p[0] == Some(t@));
                    push_range(&mut out, &t, 0, t.len());
                    assert(t@.subrange(0, t.len() as int) =~= t@);
                } else if matches!(policy, SecretPolicy::KeepToken) {
                    push_range(&mut out, &v, i, e + 1);
                    assert(s.take(q + 1) =~= v@.subrange(i as int, e + 1));
                } else {
                    return Err(DecodeError);
                }
                proof {
                    let nj = if j < plaintexts.len() { j + 1 } else { j as int };
                    let tail = render(v@.skip(e + 1), all.skip(nj), keep);
                    if tail is Some {
                        assert(out@ + tail->0 =~= before + ((out@.subrange(before.len() as int, out@.len() as int)) + tail->0));
                        assert(out@.subrange(before.len() as int, out@.len() as int) =~= out@.skip(before.len() as int));
                    }
                }
                if j < plaintexts.len() {
                    j = j + 1;
                }
                i = e + 1;
            },
            None => {
                out.push(v[i]);
                proof {
                    assert(s.drop_first() =~= v@.skip(i + 1));
                    let tail = render(v@.skip(i + 1), p, keep);
                    if tail is Some {
                        assert(out@ + tail->0 =~= before + (seq![v@[i as int]] + tail->0));
                    }
                }
                i = i + 1;
            },
        }
    }
    assert(render(v@.skip(i as int), all.skip(j as int), keep) == Some(Seq::<char>::empty()));
    assert(out@ + Seq::<char>::empty() =~= out@);
    Ok(string_of(&out))
}

/// Decrypts, under `key`, every secret token `{enc:<envelope>}` of `content`, and
/// handles those that do not decrypt as `policy` says.
pub fn resolve_secrets(content: &str, key: &str, policy: SecretPolicy) -> (r: Result<
    String,
    DecodeError,
>)
    ensures
        match r {
            Ok(t) => render(
                content@,
                decryptions(key@, secret_payloads(content@)),
                keeps_tokens(policy),
            ) == Some(t@),
            Err(_) => render(
                content@,
                decryptions(key@, secret_payloads(content@)),
                keeps_tokens(policy),
            ) is None,
        },
{
    let payloads = secret_payloads_of(content);
    let mut plaintexts: Vec<Option<String>> = Vec::new();
    let mut i: usize = 0;
    while i < payloads.len()
        invariant
            i <= payloads.len(),
            texts(payloads@) == secret_payloads(content@),
            optional_texts(plaintexts@) == decryptions(key@, texts(payloads@).take(i as int)),
        decreases payloads.len() - i,
    {
        let ghost before = plaintexts@;
        let d = match decrypt_base64_string(key, payloads[i].as_str()) {
            Ok(p) => Some(p),
            Err(_) => None,
        };
        plaintexts.push(d);
        assert(texts(payloads@).take(i + 1) =~= texts(payloads@).take(i as int).push(
            payloads@[i as int]@,
        ));
        assert(optional_texts(plaintexts@) =~= optional_texts(before).push(
            decrypted(key@, payloads@[i as int]@),
        ));
        i = i + 1;
        assert(optional_texts(plaintexts@) =~= decryptions(key@, texts(payloads@).take(i as int)));
    }
    assert(texts(payloads@).take(i as int) =~= texts(payloads@));
    render_secrets(content, &plaintexts, policy)
}

} // verus!
