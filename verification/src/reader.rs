//! From program text to a raw tree.
//!
//! A program is a sequence of tokens separated by whitespace. The first
//! character of a token is its indicator and the rest is its body. Tokens are
//! written in prefix order: an operator token is followed by its operands.
//!
//! | indicator | meaning          | operands |
//! |-----------|------------------|----------|
//! | `T`, `F`  | boolean literal  | 0        |
//! | `I`       | integer literal  | 0        |
//! | `S`       | string literal   | 0        |
//! | `v`       | variable         | 0        |
//! | `U`       | unary operator   | 1        |
//! | `L`       | function         | 1        |
//! | `B`       | binary operator  | 2        |
//! | `?`       | conditional      | 3        |
//!
//! Because every indicator fixes the number of operands, the tokens can be
//! grouped from the last one backwards with a stack of finished subtrees: a
//! token takes as many subtrees off the stack as it has operands and puts the
//! node it forms with them back. A text is a program if exactly one tree is
//! left at the end.

use vstd::prelude::*;
use std::collections::BTreeMap;
use crate::ast::{Expr, ExprView};
use crate::error::ParseError;
use crate::parser::{parse, parse_result, renamed, RawNode, RawNodeView};

verus! {

/// Whether `c` separates tokens.
pub open spec fn is_space(c: char) -> bool {
    c == ' ' || c == '\n' || c == '\t' || c == '\r'
}

/// The tokens completed within `s`, and the characters of the token that is
/// still open at the end of `s`.
pub open spec fn scan(s: Seq<char>) -> (Seq<Seq<char>>, Seq<char>)
    decreases s.len(),
{
    if s.len() == 0 {
        (Seq::empty(), Seq::empty())
    } else {
        let (done, open) = scan(s.drop_last());
        if is_space(s.last()) {
            if open.len() > 0 {
                (done.push(open), Seq::empty())
            } else {
                (done, open)
            }
        } else {
            (done, open.push(s.last()))
        }
    }
}

/// The tokens of `s`: its maximal runs of characters that are not whitespace.
pub open spec fn tokens(s: Seq<char>) -> Seq<Seq<char>> {
    let (done, open) = scan(s);
    if open.len() > 0 {
        done.push(open)
    } else {
        done
    }
}

/// The number of operands that follow a token with the given indicator.
pub open spec fn arity(indicator: char) -> Option<nat> {
    if indicator == 'T' || indicator == 'F' || indicator == 'I' || indicator == 'S' || indicator
        == 'v' {
        Some(0)
    } else if indicator == 'U' || indicator == 'L' {
        Some(1)
    } else if indicator == 'B' {
        Some(2)
    } else if indicator == '?' {
        Some(3)
    } else {
        None
    }
}

/// The node that `token` forms with the `k` subtrees on top of `stack`, the
/// topmost being its first operand.
pub open spec fn node_of(token: Seq<char>, stack: Seq<RawNodeView>, k: nat) -> RawNodeView {
    RawNodeView {
        indicator: token[0],
        body: token.skip(1),
        children: Seq::new(k, |j: int| stack[stack.len() - 1 - j]),
    }
}

/// The stack of finished subtrees after the tokens `toks` have been taken in
/// from the last to the first; the top of the stack is its last element.
pub open spec fn stacked(toks: Seq<Seq<char>>) -> Result<Seq<RawNodeView>, ParseError>
    decreases toks.len(),
{
    if toks.len() == 0 {
        Ok(Seq::empty())
    } else {
        match stacked(toks.drop_first()) {
            Err(x) => Err(x),
            Ok(stack) => {
                let token = toks[0];
                if token.len() == 0 {
                    Err(ParseError::MalformedNode)
                } else {
                    match arity(token[0]) {
                        None => Err(ParseError::UnrecognizedGrammarRule(token[0])),
                        Some(k) => if stack.len() < k {
                            Err(ParseError::UnexpectedEnd)
                        } else {
                            Ok(
                                stack.take(stack.len() - k).push(node_of(token, stack, k)),
                            )
                        },
                    }
                }
            },
        }
    }
}

/// The raw tree of the program text `s`.
pub open spec fn raw_tree(s: Seq<char>) -> Result<RawNodeView, ParseError> {
    match stacked(tokens(s)) {
        Err(x) => Err(x),
        Ok(stack) => if stack.len() == 0 {
            Err(ParseError::UnexpectedEnd)
        } else if stack.len() > 1 {
            Err(ParseError::TrailingTokens)
        } else {
            Ok(stack[0])
        },
    }
}

/// The expression of the program text `s`: its raw tree, parsed with no
/// renaming in force and the counter at -1.
pub open spec fn program(s: Seq<char>) -> Result<ExprView, ParseError> {
    match raw_tree(s) {
        Err(x) => Err(x),
        Ok(tree) => renamed(tree, Map::empty(), -1i64).0,
    }
}

/// The character sequences of a list of strings.
pub open spec fn texts(toks: Seq<String>) -> Seq<Seq<char>> {
    Seq::new(toks.len(), |i: int| toks[i]@)
}

/// The mathematical contents of a list of raw trees.
pub open spec fn views(nodes: Seq<RawNode>) -> Seq<RawNodeView> {
    Seq::new(nodes.len(), |i: int| nodes[i]@)
}

/// The mathematical content of the outcome of reading.
pub open spec fn raw_result(r: Result<RawNode, ParseError>) -> Result<RawNodeView, ParseError> {
    match r {
        Ok(node) => Ok(node@),
        Err(x) => Err(x),
    }
}

/// A failure among the later tokens is the failure of the whole sequence.
pub proof fn lemma_stacked_failure(toks: Seq<Seq<char>>, i: int)
    requires
        0 <= i <= toks.len(),
        stacked(toks.skip(i)) is Err,
    ensures
        stacked(toks) == stacked(toks.skip(i)),
    decreases i,
{
    if i == 0 {
        assert(toks.skip(0) =~= toks);
    } else {
        assert(toks.skip(i - 1).drop_first() =~= toks.skip(i));
        lemma_stacked_failure(toks, i - 1);
    }
}

/// The number of operands that follow a token with the given indicator.
pub fn operand_count(indicator: char) -> (r: Option<usize>)
    ensures
        match arity(indicator) {
            Some(k) => r == Some(k as usize) && k <= 3,
            None => r is None,
        },
{
    if indicator == 'T' || indicator == 'F' || indicator == 'I' || indicator == 'S' || indicator
        == 'v' {
        Some(0)
    } else if indicator == 'U' || indicator == 'L' {
        Some(1)
    } else if indicator == 'B' {
        Some(2)
    } else if indicator == '?' {
        Some(3)
    } else {
        None
    }
}

/// The reader of program texts.
pub struct ICFPParser;

impl ICFPParser {
    /// Splits `text` at whitespace into its tokens.
    pub fn tokenize(text: &str) -> (toks: Vec<String>)
        ensures
            texts(toks@) == tokens(text@),
    {
        let mut done: Vec<String> = Vec::new();
        let mut open = String::new();
        assert(texts(done@) =~= Seq::<Seq<char>>::empty());
        for c in it: text.chars()
            invariant
                it.seq() == text@,
                (texts(done@), open@) == scan(text@.take(it.index() as int)),
        {
            proof {
                assert(text@.take(it.index() + 1).drop_last() =~= text@.take(it.index() as int));
                assert(text@.take(it.index() + 1).last() == c);
            }
            if c == ' ' || c == '\n' || c == '\t' || c == '\r' {
                if !open.as_str().is_empty() {
                    let ghost before = done@;
                    done.push(open);
                    assert(texts(done@) =~= texts(before).push(open@));
                    open = String::new();
                }
            } else {
                open.push(c);
            }
        }
        assert(text@.take(text@.len() as int) =~= text@);
        if !open.as_str().is_empty() {
            let ghost before = done@;
            done.push(open);
            assert(texts(done@) =~= texts(before).push(open@));
        }
        done
    }

    /// Reads `text` into the raw tree of the one expression it holds.
    pub fn parse(text: &str) -> (r: Result<RawNode, ParseError>)
        ensures
            raw_result(r) == raw_tree(text@),
    {
        let toks = Self::tokenize(text);
        let mut stack: Vec<RawNode> = Vec::new();
        let mut i: usize = toks.len();
        assert(texts(toks@).skip(i as int) =~= Seq::<Seq<char>>::empty());
        assert(views(stack@) =~= Seq::<RawNodeView>::empty());
        while i > 0
            invariant
                i <= toks.len(),
                texts(toks@) == tokens(text@),
                stacked(texts(toks@).skip(i as int)) == Ok::<Seq<RawNodeView>, ParseError>(
                    views(stack@),
                ),
            decreases i,
        {
            i = i - 1;
            let token = toks[i].as_str();
            let ghost rest = texts(toks@).skip(i + 1);
            let ghost here = texts(toks@).skip(i as int);
            proof {
                assert(here.drop_first() =~= rest);
                assert(here[0] == token@);
            }
            let n: usize = token.unicode_len();
            proof {
                lemma_tokens_are_words(text@);
                assert(tokens(text@)[i as int] == token@);
            }
            let indicator = token.get_char(0);
            let k: usize = match operand_count(indicator) {
                Some(k) => k,
                None => {
                    proof {
                        lemma_stacked_failure(texts(toks@), i as int);
                    }
                    return Err(ParseError::UnrecognizedGrammarRule(indicator));
                },
            };
            if stack.len() < k {
                proof {
                    lemma_stacked_failure(texts(toks@), i as int);
                }
                return Err(ParseError::UnexpectedEnd);
            }
            let body = token.substring_char(1, n).to_owned();
            let ghost below = views(stack@);
            let mut children: Vec<RawNode> = Vec::new();
            let mut j: usize = 0;
            while j < k
                invariant
                    j <= k,
                    k <= below.len(),
                    stack@.len() == below.len() - j,
                    children@.len() == j,
                    views(stack@) == below.take(below.len() - j),
                    forall|m: int|
                        0 <= m < j ==> (#[trigger] children@[m])@ == below[below.len() - 1 - m],
                decreases k - j,
            {
                let ghost before = stack@;
                let child = stack.pop().unwrap();
                assert(views(stack@) =~= below.take(below.len() - j - 1));
                assert(child@ == views(before)[before.len() - 1]);
                children.push(child);
                j = j + 1;
            }
            let node = RawNode { indicator, body, children };
            proof {
                assert(token@.skip(1) =~= token@.subrange(1, n as int));
                assert(node@.children =~= node_of(token@, below, k as nat).children);
                assert(node@ == node_of(token@, below, k as nat));
            }
            let ghost kept = stack@;
            stack.push(node);
            assert(views(stack@) =~= views(kept).push(node@));
        }
        assert(texts(toks@).skip(0) =~= texts(toks@));
        if stack.len() == 0 {
            Err(ParseError::UnexpectedEnd)
        } else if stack.len() > 1 {
            Err(ParseError::TrailingTokens)
        } else {
            Ok(stack.pop().unwrap())
        }
    }
}

/// Reads and parses a whole program: the text is read into a raw tree, which
/// is parsed with no renaming in force and the counter at -1.
pub fn parse_program(text: &str) -> (r: Result<Expr, ParseError>)
    ensures
        parse_result(r) == program(text@),
{
    match ICFPParser::parse(text) {
        Err(x) => Err(x),
        Ok(tree) => {
            let rewrites: BTreeMap<i64, i64> = BTreeMap::new();
            let mut unique_scope: i64 = -1;
            parse(&tree, &rewrites, &mut unique_scope)
        },
    }
}

/// Whether `t` holds no whitespace.
pub open spec fn spaceless(t: Seq<char>) -> bool {
    forall|j: int| 0 <= j < t.len() ==> !is_space(#[trigger] t[j])
}

/// Neither the completed tokens nor the open one hold whitespace, and no
/// completed token is empty.
pub proof fn lemma_scan_holds_words(s: Seq<char>)
    ensures
        spaceless(scan(s).1),
        forall|i: int|
            0 <= i < scan(s).0.len() ==> (#[trigger] scan(s).0[i]).len() > 0 && spaceless(
                scan(s).0[i],
            ),
    decreases s.len(),
{
    if s.len() > 0 {
        lemma_scan_holds_words(s.drop_last());
        let (done, open) = scan(s.drop_last());
        if is_space(s.last()) {
            if open.len() > 0 {
                assert forall|i: int| 0 <= i < done.push(open).len() implies (
                #[trigger] done.push(open)[i]).len() > 0 && spaceless(done.push(open)[i]) by {
                    if i < done.len() {
                        assert(done.push(open)[i] == done[i]);
                    }
                }
            }
        } else {
            assert forall|j: int| 0 <= j < open.push(s.last()).len() implies !is_space(
                #[trigger] open.push(s.last())[j],
            ) by {
                if j < open.len() {
                    assert(open.push(s.last())[j] == open[j]);
                }
            }
        }
    }
}

/// No token is empty and no token holds whitespace.
pub proof fn lemma_tokens_are_words(s: Seq<char>)
    ensures
        forall|i: int|
            0 <= i < tokens(s).len() ==> (#[trigger] tokens(s)[i]).len() > 0 && spaceless(
                tokens(s)[i],
            ),
{
    lemma_scan_holds_words(s);
    let (done, open) = scan(s);
    if open.len() > 0 {
        assert forall|i: int| 0 <= i < done.push(open).len() implies (#[trigger] done.push(
            open,
        )[i]).len() > 0 && spaceless(done.push(open)[i]) by {
            if i < done.len() {
                assert(done.push(open)[i] == done[i]);
            }
        }
    }
}

/// Whether every node of the tree has as many children as its indicator asks for.
pub open spec fn well_formed(node: RawNodeView) -> bool
    decreases node,
{
    &&& arity(node.indicator) == Some(node.children.len())
    &&& forall|i: int|
        0 <= i < node.children.len() ==> well_formed(#[trigger] node.children[i])
}

/// The tokens of a tree in prefix order: the node's own token, then the
/// tokens of each child in turn.
pub open spec fn prefix_tokens(node: RawNodeView) -> Seq<Seq<char>>
    decreases node,
{
    let n = node.children.len();
    let own = seq![seq![node.indicator] + node.body];
    let first = if n >= 1 {
        prefix_tokens(node.children[0])
    } else {
        Seq::empty()
    };
    let second = if n >= 2 {
        prefix_tokens(node.children[1])
    } else {
        Seq::empty()
    };
    let third = if n >= 3 {
        prefix_tokens(node.children[2])
    } else {
        Seq::empty()
    };
    own + first + second + third
}

/// Taking in the prefix-order tokens of a well-formed tree puts exactly that
/// tree on the stack, whatever tokens follow.
pub proof fn lemma_stacked_prefix_tokens(
    node: RawNodeView,
    rest: Seq<Seq<char>>,
    below: Seq<RawNodeView>,
)
    requires
        well_formed(node),
        stacked(rest) == Ok::<Seq<RawNodeView>, ParseError>(below),
    ensures
        stacked(prefix_tokens(node) + rest) == Ok::<Seq<RawNodeView>, ParseError>(
            below.push(node),
        ),
    decreases node,
{
    let n = node.children.len();
    let token = seq![node.indicator] + node.body;
    let own = seq![token];
    let first = if n >= 1 {
        prefix_tokens(node.children[0])
    } else {
        Seq::empty()
    };
    let second = if n >= 2 {
        prefix_tokens(node.children[1])
    } else {
        Seq::empty()
    };
    let third = if n >= 3 {
        prefix_tokens(node.children[2])
    } else {
        Seq::empty()
    };
    let after_third = third + rest;
    let after_second = second + after_third;
    let after_first = first + after_second;
    assert(n <= 3);
    let stack3 = if n >= 3 {
        below.push(node.children[2])
    } else {
        below
    };
    if n >= 3 {
        assert(well_formed(node.children[2]));
        lemma_stacked_prefix_tokens(node.children[2], rest, below);
    } else {
        assert(after_third =~= rest);
    }
    assert(stacked(after_third) == Ok::<Seq<RawNodeView>, ParseError>(stack3));
    let stack2 = if n >= 2 {
        stack3.push(node.children[1])
    } else {
        stack3
    };
    if n >= 2 {
        assert(well_formed(node.children[1]));
        lemma_stacked_prefix_tokens(node.children[1], after_third, stack3);
    } else {
        assert(after_second =~= after_third);
    }
    assert(stacked(after_second) == Ok::<Seq<RawNodeView>, ParseError>(stack2));
    let stack1 = if n >= 1 {
        stack2.push(node.children[0])
    } else {
        stack2
    };
    if n >= 1 {
        assert(well_formed(node.children[0]));
        lemma_stacked_prefix_tokens(node.children[0], after_second, stack2);
    } else {
        assert(after_first =~= after_second);
    }
    assert(stacked(after_first) == Ok::<Seq<RawNodeView>, ParseError>(stack1));
    let all = prefix_tokens(node) + rest;
    assert(all =~= own + after_first);
    assert(all.drop_first() =~= after_first);
    assert(all[0] == token);
    assert(token[0] == node.indicator);
    assert(token.skip(1) =~= node.body);
    let built = node_of(token, stack1, n);
    assert(built.children =~= node.children);
    assert(built == node);
    assert(stack1.take(stack1.len() - n) =~= below);
}

/// Reading is the inverse of writing a tree in prefix order: a text whose
/// tokens are the prefix-order tokens of a well-formed tree reads as that tree.
pub proof fn lemma_reads_what_was_written(s: Seq<char>, node: RawNodeView)
    requires
        well_formed(node),
        tokens(s) == prefix_tokens(node),
    ensures
        raw_tree(s) == Ok::<RawNodeView, ParseError>(node),
{
    let none = Seq::<Seq<char>>::empty();
    lemma_stacked_prefix_tokens(node, none, Seq::empty());
    assert(prefix_tokens(node) + none =~= prefix_tokens(node));
    assert(Seq::<RawNodeView>::empty().push(node)[0] == node);
}

/// The text made of the given words, each followed by one space.
pub open spec fn joined(words: Seq<Seq<char>>) -> Seq<char>
    decreases words.len(),
{
    if words.len() == 0 {
        Seq::empty()
    } else {
        joined(words.drop_last()) + words.last() + seq![' ']
    }
}

/// Characters that are not whitespace extend the open token and complete none.
pub proof fn lemma_scan_appended_word(s: Seq<char>, word: Seq<char>)
    requires
        spaceless(word),
    ensures
        scan(s + word) == (scan(s).0, scan(s).1 + word),
    decreases word.len(),
{
    if word.len() == 0 {
        assert(s + word =~= s);
        assert(scan(s).1 + word =~= scan(s).1);
    } else {
        let shorter = word.drop_last();
        assert forall|j: int| 0 <= j < shorter.len() implies !is_space(#[trigger] shorter[j]) by {
            assert(shorter[j] == word[j]);
        }
        lemma_scan_appended_word(s, shorter);
        assert((s + word).drop_last() =~= s + shorter);
        assert((s + word).last() == word.last());
        assert(!is_space(word[word.len() - 1]));
        assert((scan(s).1 + shorter).push(word.last()) =~= scan(s).1 + word);
    }
}

/// The tokens of words written one after another, each followed by a space,
/// are those words, provided that none is empty or holds whitespace.
pub proof fn lemma_tokens_of_joined(words: Seq<Seq<char>>)
    requires
        forall|i: int|
            0 <= i < words.len() ==> (#[trigger] words[i]).len() > 0 && spaceless(words[i]),
    ensures
        scan(joined(words)) == (words, Seq::<char>::empty()),
        tokens(joined(words)) == words,
    decreases words.len(),
{
    if words.len() > 0 {
        let front = words.drop_last();
        let word = words.last();
        assert forall|i: int| 0 <= i < front.len() implies (#[trigger] front[i]).len() > 0
            && spaceless(front[i]) by {
            assert(front[i] == words[i]);
        }
        lemma_tokens_of_joined(front);
        assert(word == words[words.len() - 1]);
        lemma_scan_appended_word(joined(front), word);
        let text = joined(words);
        assert(text.drop_last() =~= joined(front) + word);
        assert(text.last() == ' ');
        assert(Seq::<char>::empty() + word =~= word);
        assert(front.push(word) =~= words);
    }
}

/// Whether no token body in the tree holds whitespace.
pub open spec fn writable(node: RawNodeView) -> bool
    decreases node,
{
    &&& spaceless(node.body)
    &&& forall|i: int| 0 <= i < node.children.len() ==> writable(#[trigger] node.children[i])
}

/// Every prefix-order token of a well-formed tree with bodies free of
/// whitespace is a word.
pub proof fn lemma_prefix_tokens_are_words(node: RawNodeView)
    requires
        well_formed(node),
        writable(node),
    ensures
        forall|i: int|
            0 <= i < prefix_tokens(node).len() ==> (#[trigger] prefix_tokens(node)[i]).len() > 0
                && spaceless(prefix_tokens(node)[i]),
    decreases node,
{
    let n = node.children.len();
    let token = seq![node.indicator] + node.body;
    assert(spaceless(token)) by {
        assert forall|j: int| 0 <= j < token.len() implies !is_space(#[trigger] token[j]) by {
            if j > 0 {
                assert(token[j] == node.body[j - 1]);
            }
        }
    }
    let first = if n >= 1 {
        prefix_tokens(node.children[0])
    } else {
        Seq::empty()
    };
    let second = if n >= 2 {
        prefix_tokens(node.children[1])
    } else {
        Seq::empty()
    };
    let third = if n >= 3 {
        prefix_tokens(node.children[2])
    } else {
        Seq::empty()
    };
    if n >= 1 {
        assert(well_formed(node.children[0]) && writable(node.children[0]));
        lemma_prefix_tokens_are_words(node.children[0]);
    }
    if n >= 2 {
        assert(well_formed(node.children[1]) && writable(node.children[1]));
        lemma_prefix_tokens_are_words(node.children[1]);
    }
    if n >= 3 {
        assert(well_formed(node.children[2]) && writable(node.children[2]));
        lemma_prefix_tokens_are_words(node.children[2]);
    }
    let all = prefix_tokens(node);
    assert(all =~= seq![token] + first + second + third);
    assert forall|i: int| 0 <= i < all.len() implies (#[trigger] all[i]).len() > 0 && spaceless(
        all[i],
    ) by {
        if i == 0 {
            assert(all[i] == token);
        } else if i < 1 + first.len() {
            assert(all[i] == first[i - 1]);
        } else if i < 1 + first.len() + second.len() {
            assert(all[i] == second[i - 1 - first.len()]);
        } else {
            assert(all[i] == third[i - 1 - first.len() - second.len()]);
        }
    }
}

/// Reading is the inverse of writing: the text that spells out a well-formed
/// tree in prefix order, one token after another, reads as that tree.
pub proof fn lemma_reads_written_text(node: RawNodeView)
    requires
        well_formed(node),
        writable(node),
    ensures
        raw_tree(joined(prefix_tokens(node))) == Ok::<RawNodeView, ParseError>(node),
{
    lemma_prefix_tokens_are_words(node);
    lemma_tokens_of_joined(prefix_tokens(node));
    lemma_reads_what_was_written(joined(prefix_tokens(node)), node);
}

} // verus!
