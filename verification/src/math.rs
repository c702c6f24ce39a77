//! A small TeX-like notation: `^` and `_` raise or lower the next character or braced group.

use vstd::prelude::*;
use crate::error::{push_char, push_str};

verus! {

#[derive(Debug, Clone, Copy, PartialEq, Eq, Structural)]
pub enum MathScript {
    Normal,
    Superscript,
    Subscript,
}

#[derive(Debug, Clone, PartialEq, Eq)]
pub struct MathToken {
    pub text: String,
    pub script: MathScript,
}

/// A token as plain values: its text and its script position.
pub struct TokenView {
    pub text: Seq<char>,
    pub script: MathScript,
}

pub open spec fn token_views(v: Seq<MathToken>) -> Seq<TokenView> {
    Seq::new(v.len(), |i: int| TokenView { text: v[i].text@, script: v[i].script })
}

/// The position of the first `}` at or after `j`, or the end of the text.
pub open spec fn brace_end(s: Seq<char>, j: int) -> int
    decreases s.len() - j,
{
    if j >= s.len() {
        s.len() as int
    } else if s[j] == '}' {
        j
    } else {
        brace_end(s, j + 1)
    }
}

/// The tokens of the text from position `i` on. An ordinary character is a token of its own.
/// After `^` (superscript) or `_` (subscript) comes either a group in braces, whose text up to
/// the closing brace (or the end) is one token, or a single character; an empty group gives
/// no token.
pub open spec fn tex_tokens(s: Seq<char>, i: int) -> Seq<TokenView>
    decreases s.len() - i,
{
    if i < 0 || i >= s.len() {
        Seq::empty()
    } else if s[i] != '^' && s[i] != '_' {
        seq![TokenView { text: seq![s[i]], script: MathScript::Normal }] + tex_tokens(s, i + 1)
    } else {
        let script = if s[i] == '^' {
            MathScript::Superscript
        } else {
            MathScript::Subscript
        };
        if i + 1 < s.len() && s[i + 1] == '{' {
            let close = brace_end(s, i + 2);
            let text = s.subrange(i + 2, close);
            proof {
                lemma_brace_end(s, i + 2);
            }
            let rest = tex_tokens(s, if close < s.len() { close + 1 } else { s.len() as int });
            if text.len() > 0 {
                seq![TokenView { text, script }] + rest
            } else {
                rest
            }
        } else if i + 1 < s.len() {
            seq![TokenView { text: seq![s[i + 1]], script }] + tex_tokens(s, i + 2)
        } else {
            Seq::empty()
        }
    }
}

/// The texts of the tokens, one after another.
pub open spec fn token_text(t: Seq<TokenView>) -> Seq<char>
    decreases t.len(),
{
    if t.len() == 0 {
        Seq::empty()
    } else {
        token_text(t.drop_last()) + t.last().text
    }
}

pub proof fn lemma_brace_end(s: Seq<char>, j: int)
    requires
        0 <= j,
    ensures
        j <= brace_end(s, j) || (j > s.len() && brace_end(s, j) == s.len()),
        brace_end(s, j) <= s.len() || j > s.len(),
        brace_end(s, j) < s.len() ==> s[brace_end(s, j)] == '}',
        forall|k: int| j <= k < brace_end(s, j) ==> s[k] != '}',
    decreases s.len() - j,
{
    if j < s.len() && s[j] != '}' {
        lemma_brace_end(s, j + 1);
    }
}

proof fn lemma_tokens_shift(s: Seq<char>, i: int, acc: Seq<TokenView>, next: int, found: Seq<TokenView>)
    requires
        tex_tokens(s, i) == found + tex_tokens(s, next),
    ensures
        acc + tex_tokens(s, i) == (acc + found) + tex_tokens(s, next),
{
    assert(acc + (found + tex_tokens(s, next)) =~= (acc + found) + tex_tokens(s, next));
}

/// Splits TeX-like text into tokens of normal, raised and lowered text.
pub fn parse_tex_like(input: &str) -> (r: Vec<MathToken>)
    ensures
        token_views(r@) == tex_tokens(input@, 0),
{
    let ghost s = input@;
    let n = input.unicode_len();
    let mut tokens: Vec<MathToken> = Vec::new();
    let mut i: usize = 0;
    while i < n
        invariant
            s == input@,
            n == s.len(),
            i <= n,
            tex_tokens(s, 0) == token_views(tokens@) + tex_tokens(s, i as int),
        decreases n - i,
    {
        let ghost before = token_views(tokens@);
        let ch = input.get_char(i);
        if ch != '^' && ch != '_' {
            let mut text = String::new();
            push_char(&mut text, ch);
            tokens.push(MathToken { text, script: MathScript::Normal });
            proof {
                let t = TokenView { text: seq![ch], script: MathScript::Normal };
                assert(token_views(tokens@) =~= before.push(t));
                lemma_tokens_shift(s, i as int, before, i + 1, seq![t]);
                assert(before + seq![t] =~= before.push(t));
            }
            i = i + 1;
        } else {
            let script = if ch == '^' {
                MathScript::Superscript
            } else {
                MathScript::Subscript
            };
            if i + 1 < n && input.get_char(i + 1) == '{' {
                let mut text = String::new();
                let mut j: usize = i + 2;
                proof {
                    lemma_brace_end(s, i + 2);
                }
                while j < n && input.get_char(j) != '}'
                    invariant
                        s == input@,
                        n == s.len(),
                        i + 2 <= j <= n,
                        brace_end(s, i + 2) == brace_end(s, j as int),
                        text@ =~= s.subrange(i + 2, j as int),
                    decreases n - j,
                {
                    let c = input.get_char(j);
                    push_char(&mut text, c);
                    j = j + 1;
                }
                let ghost close = j as int;
                assert(brace_end(s, j as int) == close);
                let next = if j < n { j + 1 } else { n };
                if text.unicode_len() > 0 {
                    let ghost t = TokenView { text: text@, script };
                    tokens.push(MathToken { text, script });
                    proof {
                        assert(token_views(tokens@) =~= before.push(t));
                        lemma_tokens_shift(s, i as int, before, next as int, seq![t]);
                        assert(before + seq![t] =~= before.push(t));
                    }
                } else {
                    proof {
                        lemma_tokens_shift(s, i as int, before, next as int, Seq::empty());
                        assert(before + Seq::<TokenView>::empty() =~= before);
                    }
                }
                i = next;
            } else if i + 1 < n {
                let c = input.get_char(i + 1);
                let mut text = String::new();
                push_char(&mut text, c);
                tokens.push(MathToken { text, script });
                proof {
                    let t = TokenView { text: seq![c], script };
                    assert(token_views(tokens@) =~= before.push(t));
                    lemma_tokens_shift(s, i as int, before, i + 2, seq![t]);
                    assert(before + seq![t] =~= before.push(t));
                }
                i = i + 2;
            } else {
                proof {
                    lemma_tokens_shift(s, i as int, before, n as int, Seq::empty());
                    assert(before + Seq::<TokenView>::empty() =~= before);
                }
                i = n;
            }
        }
    }
    assert(tex_tokens(s, i as int) =~= Seq::<TokenView>::empty());
    assert(token_views(tokens@) + Seq::<TokenView>::empty() =~= token_views(tokens@));
    tokens
}

/// The text of TeX-like input with the script markers and braces removed.
pub fn tex_like_plain_text(input: &str) -> (r: String)
    ensures
        r@ == token_text(tex_tokens(input@, 0)),
{
    let tokens = parse_tex_like(input);
    let ghost views = token_views(tokens@);
    let mut out = String::new();
    let mut i: usize = 0;
    while i < tokens.len()
        invariant
            views == token_views(tokens@),
            i <= tokens@.len(),
            out@ == token_text(views.subrange(0, i as int)),
        decreases tokens@.len() - i,
    {
        push_str(&mut out, tokens[i].text.as_str());
        proof {
            assert(views.subrange(0, i + 1).drop_last() =~= views.subrange(0, i as int));
        }
        i = i + 1;
    }
    assert(views.subrange(0, i as int) =~= views);
    out
}


proof fn lemma_token_text_prepend(t: TokenView, rest: Seq<TokenView>)
    ensures
        token_text(seq![t] + rest) == t.text + token_text(rest),
    decreases rest.len(),
{
    if rest.len() == 0 {
        assert(seq![t] + rest =~= seq![t]);
        assert(seq![t].drop_last() =~= Seq::<TokenView>::empty());
        assert(token_text(Seq::<TokenView>::empty()) == Seq::<char>::empty());
        assert(token_text(seq![t]) == token_text(Seq::<TokenView>::empty()) + t.text);
        assert(Seq::<char>::empty() + t.text =~= t.text);
        assert(t.text + Seq::<char>::empty() =~= t.text);
    } else {
        lemma_token_text_prepend(t, rest.drop_last());
        assert((seq![t] + rest).drop_last() =~= seq![t] + rest.drop_last());
        assert((seq![t] + rest).last() == rest.last());
        assert(t.text + token_text(rest.drop_last()) + rest.last().text =~= t.text + (token_text(
            rest.drop_last(),
        ) + rest.last().text));
    }
}

/// Text without `^` or `_` is a run of normal characters: its plain text is the text itself.
pub proof fn law_plain_text_without_markers(s: Seq<char>, i: int)
    requires
        0 <= i <= s.len(),
        forall|k: int| 0 <= k < s.len() ==> s[k] != '^' && s[k] != '_',
    ensures
        token_text(tex_tokens(s, i)) == s.subrange(i, s.len() as int),
    decreases s.len() - i,
{
    if i < s.len() {
        law_plain_text_without_markers(s, i + 1);
        let t = TokenView { text: seq![s[i]], script: MathScript::Normal };
        lemma_token_text_prepend(t, tex_tokens(s, i + 1));
        assert(seq![s[i]] + s.subrange(i + 1, s.len() as int) =~= s.subrange(i, s.len() as int));
    } else {
        assert(s.subrange(i, s.len() as int) =~= Seq::<char>::empty());
    }
}

/// No token has empty text.
pub proof fn law_tokens_are_not_empty(s: Seq<char>, i: int, k: int)
    requires
        0 <= k < tex_tokens(s, i).len(),
    ensures
        tex_tokens(s, i)[k].text.len() > 0,
    decreases s.len() - i,
{
    if 0 <= i < s.len() {
        if s[i] != '^' && s[i] != '_' {
            if k > 0 {
                law_tokens_are_not_empty(s, i + 1, k - 1);
            }
        } else if i + 1 < s.len() && s[i + 1] == '{' {
            lemma_brace_end(s, i + 2);
            let close = brace_end(s, i + 2);
            let next = if close < s.len() { close + 1 } else { s.len() as int };
            let text = s.subrange(i + 2, close);
            if text.len() > 0 {
                if k > 0 {
                    law_tokens_are_not_empty(s, next, k - 1);
                }
            } else {
                law_tokens_are_not_empty(s, next, k);
            }
        } else if i + 1 < s.len() {
            if k > 0 {
                law_tokens_are_not_empty(s, i + 2, k - 1);
            }
        }
    }
}

} // verus!
