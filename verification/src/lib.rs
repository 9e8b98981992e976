//! Front end for the "W" component language: a verified lexer, an
//! event-based Pratt parser with error recovery, a lossless syntax tree,
//! a typed syntax view, and arena-based lowering to a small semantic
//! representation.
use vstd::prelude::*;
use vstd::string::{StrSliceExecFns, StringExecFns};

pub mod text;
pub mod token_kind;
pub mod syntax_kind;
pub mod cursor;
pub mod lexer;
pub mod tree;
pub mod event;
pub mod parse_error;
pub mod source;
pub mod parser;
pub mod grammar;
pub mod sink;
pub mod render;
pub mod replay;
pub mod ast;
pub mod hir;
pub mod ast_lowering;

pub use token_kind::TokenKind;
pub use syntax_kind::SyntaxKind;

use crate::event::{perr_view, g_errors_of, lemma_errors_of_view};
use crate::grammar::model::{PState, sp_root};
use crate::lexer::{tokenize_file, lemma_tokens_round_trip, tok_views, spec_tokens, lexed_wf};
use crate::lexer::Token;
use crate::parse_error::{ParseError, spec_error_message};
use crate::parser::Parser;
use crate::render::{spec_dec, spec_escape, dec_string, escape_text};
use crate::replay::{sp_replay, tviews, node_gview};
use crate::sink::{Sink, lemma_lexed_chained, token_leaf_views};
use crate::syntax_kind::spec_kind_name;
use crate::tree::{SyntaxNode, SyntaxElement, node_wf, node_text, node_leaves, lemma_chain_text_len};

verus! {

/// The result of parsing one source text: the lossless tree and the
/// syntax errors met along the way.
pub struct Parse {
    pub root: SyntaxNode,
    pub errors: Vec<ParseError>,
}

/// Runs the grammar and the tree sink over one lexed token stream.
#[verifier::rlimit(100)]
#[verifier::spinoff_prover]
fn parse_tokens<'t, 'input>(tokens: &'t Vec<Token<'input>>) -> (r: (SyntaxNode, Vec<ParseError>))
    requires
        tok_views(tokens@) == spec_tokens(crate::lexer::concat_texts(tokens@), 0),
        lexed_wf(tokens@, crate::lexer::concat_texts(tokens@)),
        sink::tokens_chained(tokens@),
    ensures
        node_wf(r.0),
        r.0.kind == SyntaxKind::Root,
        r.0.start == 0,
        r.0.end == crate::lexer::concat_texts(tokens@).len(),
        node_text(r.0) == crate::lexer::concat_texts(tokens@),
        node_leaves(r.0) == token_leaf_views(tokens@),
        node_gview(r.0) == sp_replay(
            tviews(tokens@),
            sp_root(
                tokens@,
                PState { evs: Seq::empty(), cur: 0, expected: Seq::empty() },
            ).0.evs,
        ),
        r.1@.map_values(|pe: ParseError| perr_view(pe)) == g_errors_of(
            sp_root(
                tokens@,
                PState { evs: Seq::empty(), cur: 0, expected: Seq::empty() },
            ).0.evs,
        ),
{
    let parser = Parser::new(tokens);
    let events = parser.parse();
    let ghost parsed_evs = events@;
    let sink = Sink::new(tokens, events);
    let (root, errors) = sink.finish();
    proof {
        lemma_tokens_round_trip(tokens@, crate::lexer::concat_texts(tokens@));
        lemma_chain_text_len(root.children@, root.start as int, root.end as int);
        assert(errors@.map_values(|pe: ParseError| perr_view(pe)) == g_errors_of(
            sp_root(
                tokens@,
                PState { evs: Seq::empty(), cur: 0, expected: Seq::empty() },
            ).0.evs,
        )) by {
            lemma_errors_of_view(parsed_evs);
        }
    }
    (root, errors)
}

/// Builds the parse result for a lexed token stream of `input`.
#[verifier::rlimit(100)]
#[verifier::spinoff_prover]
fn assemble<'t, 'input>(input: &str, tokens: &'t Vec<Token<'input>>) -> (r: Parse)
    requires
        tok_views(tokens@) == spec_tokens(input@, 0),
        lexed_wf(tokens@, input@),
    ensures
        node_wf(r.root),
        r.root.kind == SyntaxKind::Root,
        r.root.start == 0,
        r.root.end == input@.len(),
        node_text(r.root) == input@,
        exists|toks: Seq<Token<'_>>|
            {
                &&& #[trigger] tok_views(toks) == spec_tokens(input@, 0)
                &&& lexed_wf(toks, input@)
                &&& node_gview(r.root) == sp_replay(
                    tviews(toks),
                    sp_root(
                        toks,
                        PState { evs: Seq::empty(), cur: 0, expected: Seq::empty() },
                    ).0.evs,
                )
                &&& node_leaves(r.root) == token_leaf_views(toks)
                &&& r.errors@.map_values(|pe: ParseError| perr_view(pe)) == g_errors_of(
                    sp_root(
                        toks,
                        PState { evs: Seq::empty(), cur: 0, expected: Seq::empty() },
                    ).0.evs,
                )
            },
{
    proof {
        lemma_lexed_chained(tokens@, input@);
        lemma_tokens_round_trip(tokens@, input@);
    }
    let (root, errors) = parse_tokens(tokens);
    Parse { root, errors }
}

/// Parses a source text through the whole pipeline: tokenize, run the
/// event-based grammar, and replay the events into a lossless tree.
///
/// The tree is well formed, carries the `Root` tag, spans the whole input,
/// and is lossless: the concatenation of its leaf texts is exactly the
/// input. Moreover the whole result is pinned to the mathematical model:
/// for the tokenization of the input (whose views `spec_tokens` fixes),
/// the tree is exactly the replay of the grammar's event log, its leaves
/// are exactly the tokens, and the errors are exactly those of the log.
pub fn parse(input: &str) -> (r: Parse)
    ensures
        node_wf(r.root),
        r.root.kind == SyntaxKind::Root,
        r.root.start == 0,
        r.root.end == input@.len(),
        node_text(r.root) == input@,
        exists|toks: Seq<Token<'_>>|
            {
                &&& #[trigger] tok_views(toks) == spec_tokens(input@, 0)
                &&& lexed_wf(toks, input@)
                &&& node_gview(r.root) == sp_replay(
                    tviews(toks),
                    sp_root(
                        toks,
                        PState { evs: Seq::empty(), cur: 0, expected: Seq::empty() },
                    ).0.evs,
                )
                &&& node_leaves(r.root) == token_leaf_views(toks)
                &&& r.errors@.map_values(|pe: ParseError| perr_view(pe)) == g_errors_of(
                    sp_root(
                        toks,
                        PState { evs: Seq::empty(), cur: 0, expected: Seq::empty() },
                    ).0.evs,
                )
            },
{
    let (tokens, _lex_errors) = tokenize_file(input);
    assemble(input, &tokens)
}

impl Parse {
    /// The errors met while parsing.
    pub fn errors(&self) -> (r: &Vec<ParseError>)
        ensures
            r@ == self.errors@,
    {
        &self.errors
    }

    /// Hands out the syntax tree.
    pub fn syntax(self) -> (r: SyntaxNode)
        ensures
            r == self.root,
    {
        self.root
    }

    /// The indented debug dump of the tree, with one line per node or
    /// token and the recorded errors appended, used for snapshot tests.
    pub fn debug_tree(&self) -> (r: String)
        ensures
            r@ == spec_debug_tree(self.root, self.errors@),
    {
        let tree = render_node(&self.root, "");
        let len = tree.as_str().unicode_len();
        proof {
            lemma_render_node_len(self.root, ""@);
        }
        let mut out = tree.as_str().substring_char(0, len - 1).to_owned();
        let n = self.errors.len();
        let mut i: usize = 0;
        proof {
            reveal_strlit("");
            assert(""@ =~= Seq::<char>::empty());
            assert(self.errors@.skip(0) =~= self.errors@);
            assert(out@ =~= spec_render_node(self.root, Seq::<char>::empty()).drop_last());
            assert(out@ + spec_error_lines(self.errors@.skip(0)) =~= spec_debug_tree(
                self.root,
                self.errors@,
            ));
        }
        while i < n
            invariant
                n == self.errors@.len(),
                0 <= i <= n,
                out@ + spec_error_lines(self.errors@.skip(i as int)) == spec_debug_tree(
                    self.root,
                    self.errors@,
                ),
            decreases n - i,
        {
            out.append("\n");
            let line = self.errors[i].message();
            out.append(line.as_str());
            proof {
                reveal_strlit("\n");
                assert(self.errors@.skip(i as int)[0] == self.errors@[i as int]);
                assert(self.errors@.skip(i as int).drop_first() =~= self.errors@.skip(i + 1));
                assert(out@ + spec_error_lines(self.errors@.skip(i + 1)) =~= spec_debug_tree(
                    self.root,
                    self.errors@,
                ));
            }
            i = i + 1;
        }
        proof {
            assert(self.errors@.skip(n as int).len() == 0);
            assert(out@ =~= spec_debug_tree(self.root, self.errors@));
        }
        out
    }
}

// ---------------------------------------------------------------------------
// The debug dump.
// ---------------------------------------------------------------------------
/// The dump of a whole parse: the tree's rendering without its trailing
/// newline, then one line per error.
pub open spec fn spec_debug_tree(root: SyntaxNode, errors: Seq<ParseError>) -> Seq<char> {
    spec_render_node(root, Seq::<char>::empty()).drop_last() + spec_error_lines(errors)
}

/// The error lines appended to a dump.
pub open spec fn spec_error_lines(errors: Seq<ParseError>) -> Seq<char>
    decreases errors,
{
    if errors.len() == 0 {
        Seq::empty()
    } else {
        seq!['\n'] + spec_error_message(
            errors[0].expected@,
            errors[0].found,
            errors[0].start as int,
            errors[0].end as int,
        ) + spec_error_lines(errors.drop_first())
    }
}

/// One node of the dump: its own line, then its children one indentation
/// level deeper.
pub open spec fn spec_render_node(n: SyntaxNode, indent: Seq<char>) -> Seq<char>
    decreases n,
{
    indent + spec_kind_name(n.kind) + "@"@ + spec_dec(n.start as int) + ".."@ + spec_dec(
        n.end as int,
    ) + seq!['\n'] + spec_render_children(n.children@, indent + "  "@)
}

/// The dump lines of a sequence of children.
pub open spec fn spec_render_children(s: Seq<SyntaxElement>, indent: Seq<char>) -> Seq<char>
    decreases s,
{
    if s.len() == 0 {
        Seq::empty()
    } else {
        spec_render_elem(s[0], indent) + spec_render_children(s.drop_first(), indent)
    }
}

/// The dump of one child: a token renders as one line with its escaped
/// text, a node recursively.
pub open spec fn spec_render_elem(e: SyntaxElement, indent: Seq<char>) -> Seq<char>
    decreases e,
{
    match e {
        SyntaxElement::Token(t) => indent + spec_kind_name(t.kind) + "@"@ + spec_dec(
            t.start as int,
        ) + ".."@ + spec_dec(t.end as int) + " \""@ + spec_escape(t.text@) + "\""@ + seq!['\n'],
        SyntaxElement::Node(m) => spec_render_node(m, indent),
    }
}

/// A node's rendering is never empty (it holds at least its own line).
proof fn lemma_render_node_len(n: SyntaxNode, indent: Seq<char>)
    ensures
        spec_render_node(n, indent).len() >= 1,
{
}

/// Renders one node of the dump at the given indentation.
pub fn render_node(n: &SyntaxNode, indent: &str) -> (r: String)
    ensures
        r@ == spec_render_node(*n, indent@),
    decreases *n,
{
    let mut out = String::from_str(indent);
    out.append(n.kind.kind_name());
    out.append("@");
    let start_digits = dec_string(n.start);
    out.append(start_digits.as_str());
    out.append("..");
    let end_digits = dec_string(n.end);
    out.append(end_digits.as_str());
    out.append("\n");
    let mut deeper = String::from_str(indent);
    deeper.append("  ");
    let ghost line = out@;
    let ghost ind2 = deeper@;
    proof {
        reveal_strlit("@");
        reveal_strlit("..");
        reveal_strlit("\n");
        reveal_strlit("  ");
        assert(spec_render_node(*n, indent@) =~= line + spec_render_children(n.children@, ind2));
        assert(n.children@.skip(0) =~= n.children@);
    }
    let count = n.children.len();
    let mut i: usize = 0;
    while i < count
        invariant
            count == n.children@.len(),
            0 <= i <= count,
            ind2 == deeper@,
            out@ + spec_render_children(n.children@.skip(i as int), ind2) == spec_render_node(
                *n,
                indent@,
            ),
        decreases count - i,
    {
        proof {
            assert(n.children@.skip(i as int)[0] == n.children@[i as int]);
            assert(n.children@.skip(i as int).drop_first() =~= n.children@.skip(i + 1));
            assert(spec_render_children(n.children@.skip(i as int), ind2) == spec_render_elem(
                n.children@[i as int],
                ind2,
            ) + spec_render_children(n.children@.skip(i + 1), ind2));
        }
        match &n.children[i] {
            SyntaxElement::Token(t) => {
                proof {
                    assert(n.children@[i as int] == SyntaxElement::Token(*t));
                }
                out.append(deeper.as_str());
                out.append(t.kind.kind_name());
                out.append("@");
                let s_digits = dec_string(t.start);
                out.append(s_digits.as_str());
                out.append("..");
                let e_digits = dec_string(t.end);
                out.append(e_digits.as_str());
                out.append(" \"");
                let escaped = escape_text(t.text.as_str());
                out.append(escaped.as_str());
                out.append("\"");
                out.append("\n");
                proof {
                    reveal_strlit("@");
                    reveal_strlit("..");
                    reveal_strlit(" \"");
                    reveal_strlit("\"");
                    reveal_strlit("\n");
                    assert(out@ + spec_render_children(n.children@.skip(i + 1), ind2)
                        =~= spec_render_node(*n, indent@));
                }
            },
            SyntaxElement::Node(m) => {
                proof {
                    assert(n.children@[i as int] == SyntaxElement::Node(*m));
                }
                let sub = render_node(m, deeper.as_str());
                out.append(sub.as_str());
                proof {
                    assert(out@ + spec_render_children(n.children@.skip(i + 1), ind2)
                        =~= spec_render_node(*n, indent@));
                }
            },
        }
        i = i + 1;
    }
    proof {
        assert(n.children@.skip(count as int).len() == 0);
        assert(out@ =~= spec_render_node(*n, indent@));
    }
    out
}

} // verus!
