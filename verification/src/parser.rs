//! Parsing an argument list `[name =] value, ...` and binding each argument
//! to the options.

use crate::options::{BindgenOptions, OptionsView};
use crate::process_args::split_args;
use crate::text::{opt_view, str_eq};
use crate::visitor::{
    bind, lemma_lists_only_grow, lemma_positional_string_is_clang_args, BinderView,
    BindgenArgsVisitor, LiteralView, TypedLiteral,
};
use vstd::prelude::*;

verus! {

/// The suffix of an integer literal.
#[derive(Clone, Copy, Debug, PartialEq, Eq, Structural)]
pub enum LitIntType {
    Signed,
    Unsigned,
    Unsuffixed,
}

/// A literal.
#[derive(Clone, Debug, PartialEq, Eq)]
pub enum Lit {
    Str(String),
    Bool(bool),
    Int(u64, LitIntType),
    /// A literal of any other kind.
    Other,
}

/// One token of an argument list. An expression in the place of a value is
/// one token: what it reduces to once the macros in it are expanded.
#[derive(Clone, Debug, PartialEq, Eq)]
pub enum Token {
    /// A bare word; `true` and `false` are such words.
    Ident(String),
    Eq,
    Comma,
    /// An expression that reduces to a literal.
    Literal(Lit),
    /// Anything else.
    Other,
}

/// A literal as mathematical values.
pub enum LitView {
    Str(Seq<char>),
    Bool(bool),
    Int(u64, LitIntType),
    Other,
}

/// A token as mathematical values.
pub enum TokenView {
    Ident(Seq<char>),
    Eq,
    Comma,
    Literal(LitView),
    Other,
}

impl View for Lit {
    type V = LitView;

    open spec fn view(&self) -> LitView {
        match *self {
            Lit::Str(s) => LitView::Str(s@),
            Lit::Bool(b) => LitView::Bool(b),
            Lit::Int(i, ty) => LitView::Int(i, ty),
            Lit::Other => LitView::Other,
        }
    }
}

impl View for Token {
    type V = TokenView;

    open spec fn view(&self) -> TokenView {
        match *self {
            Token::Ident(s) => TokenView::Ident(s@),
            Token::Eq => TokenView::Eq,
            Token::Comma => TokenView::Comma,
            Token::Literal(lit) => TokenView::Literal(lit@),
            Token::Other => TokenView::Other,
        }
    }
}

/// The tokens as mathematical values.
pub open spec fn token_views(tts: Seq<Token>) -> Seq<TokenView> {
    tts.map_values(|t: Token| t@)
}

/// The two kinds of error in an argument list.
#[derive(Clone, Copy, Debug, PartialEq, Eq, Structural)]
pub enum ErrorKind {
    /// The tokens do not have the shape of an argument list. Parsing stops.
    Syntax,
    /// An argument is well formed, and no option takes it. Parsing goes on.
    Semantic,
}

/// One reported error. `lo` and `hi` are the positions of the first and the
/// last token that it covers; the position after the last token stands for
/// the end of the list.
#[derive(Clone, Copy, Debug, PartialEq, Eq, Structural)]
pub struct Diagnostic {
    pub kind: ErrorKind,
    pub lo: usize,
    pub hi: usize,
}

/// The syntax error that covers the tokens from `lo` to `hi`.
pub open spec fn syntax_error(lo: int, hi: int) -> Diagnostic {
    Diagnostic { kind: ErrorKind::Syntax, lo: lo as usize, hi: hi as usize }
}

/// The semantic error that covers the tokens from `lo` to `hi`.
pub open spec fn semantic_error(lo: int, hi: int) -> Diagnostic {
    Diagnostic { kind: ErrorKind::Semantic, lo: lo as usize, hi: hi as usize }
}

/// The text of the message for each kind of error.
pub open spec fn message_text(kind: ErrorKind) -> Seq<char> {
    match kind {
        ErrorKind::Syntax => "invalid argument format"@,
        ErrorKind::Semantic => "invalid argument"@,
    }
}

impl Diagnostic {
    /// The message to report.
    pub fn message(&self) -> (text: &'static str)
        ensures
            text@ == message_text(self.kind),
    {
        match self.kind {
            ErrorKind::Syntax => "invalid argument format",
            ErrorKind::Semantic => "invalid argument",
        }
    }
}

/// The typed value that a token in the place of a value stands for. The
/// words `true` and `false` are booleans, any other word is an identifier.
/// An integer literal is signed only where its suffix says so. `None` where
/// the token is no value.
pub open spec fn literal_of(token: TokenView) -> Option<LiteralView> {
    match token {
        TokenView::Ident(word) => if word == "true"@ {
            Some(LiteralView::Bool(true))
        } else if word == "false"@ {
            Some(LiteralView::Bool(false))
        } else {
            Some(LiteralView::Ident(word))
        },
        TokenView::Literal(LitView::Str(s)) => Some(LiteralView::Str(s)),
        TokenView::Literal(LitView::Bool(b)) => Some(LiteralView::Bool(b)),
        TokenView::Literal(LitView::Int(i, LitIntType::Signed)) => Some(
            LiteralView::Int(i as i64),
        ),
        TokenView::Literal(LitView::Int(i, _)) => Some(LiteralView::UInt(i)),
        _ => None,
    }
}

/// One argument as it stands in the tokens.
pub struct Argument {
    pub name: Option<Seq<char>>,
    pub value: LiteralView,
    /// The position of the token that holds the value.
    pub at: int,
}

/// The argument that starts at `pos`, or the syntax error that it is. A
/// token followed by `=` is the argument's name, and has to be a word; the
/// value follows.
pub open spec fn read_argument(tts: Seq<TokenView>, pos: int) -> Result<Argument, Diagnostic> {
    let named = pos + 1 < tts.len() && tts[pos + 1] is Eq;
    if named && !(tts[pos] is Ident) {
        Err(syntax_error(pos, pos))
    } else {
        let name = if named {
            Some(tts[pos]->Ident_0)
        } else {
            None
        };
        let at = if named {
            pos + 2
        } else {
            pos
        };
        let value = if at < tts.len() {
            literal_of(tts[at])
        } else {
            None
        };
        match value {
            Some(value) => Ok(Argument { name, value, at }),
            None => Err(syntax_error(pos, at)),
        }
    }
}

/// How far a parse has come: the visitor, whether every argument so far was
/// accepted, and the errors reported so far.
pub struct Parse {
    pub binder: BinderView,
    pub good: bool,
    pub diagnostics: Seq<Diagnostic>,
}

/// The parse of the arguments from `pos` on, where `p` is the parse of
/// those before. A syntax error is reported and ends the parse. A rejected
/// argument is reported, and the parse goes on. After an argument comes the
/// end of the list or a comma, and after a comma the end or another
/// argument.
pub open spec fn parse_from(tts: Seq<TokenView>, pos: int, p: Parse) -> Parse
    decreases tts.len() - pos,
{
    match read_argument(tts, pos) {
        Err(error) => Parse { good: false, diagnostics: p.diagnostics.push(error), ..p },
        Ok(arg) => {
            let bound = bind(p.binder, arg.name, arg.value);
            let next = Parse {
                binder: bound.binder,
                good: p.good && bound.accepted,
                diagnostics: if bound.accepted {
                    p.diagnostics
                } else {
                    p.diagnostics.push(semantic_error(pos, arg.at))
                },
            };
            let sep = arg.at + 1;
            if sep >= tts.len() {
                next
            } else if !(tts[sep] is Comma) {
                Parse {
                    good: false,
                    diagnostics: next.diagnostics.push(syntax_error(sep, sep)),
                    ..next
                }
            } else if sep + 1 >= tts.len() {
                next
            } else {
                parse_from(tts, sep + 1, next)
            }
        },
    }
}

/// The parse of a whole argument list into `options`.
pub open spec fn parse(
    tts: Seq<TokenView>,
    options: OptionsView,
    diagnostics: Seq<Diagnostic>,
) -> Parse {
    parse_from(
        tts,
        0,
        Parse { binder: BinderView { options, seen_named: false }, good: true, diagnostics },
    )
}

/// One string and nothing else is taken as `clang_args`: the parse is good,
/// reports nothing, appends the tokens of the string to the compiler
/// arguments and changes no other option.
pub proof fn lemma_single_string_is_clang_args(
    val: Seq<char>,
    options: OptionsView,
    diagnostics: Seq<Diagnostic>,
)
    ensures
        parse(seq![TokenView::Literal(LitView::Str(val))], options, diagnostics) == (Parse {
            binder: BinderView {
                options: OptionsView {
                    clang_args: options.clang_args + split_args(val),
                    ..options
                },
                seen_named: false,
            },
            good: true,
            diagnostics,
        }),
{
    let tts = seq![TokenView::Literal(LitView::Str(val))];
    let b = BinderView { options, seen_named: false };
    lemma_positional_string_is_clang_args(b, val);
}

/// An argument that is rejected does not end the parse: where a comma and
/// more tokens follow it, the rest is parsed with the options as they were
/// before it, the error reported and the parse no longer good.
pub proof fn lemma_rejected_argument_goes_on(tts: Seq<TokenView>, pos: int, p: Parse)
    requires
        read_argument(tts, pos) is Ok,
        !bind(
            p.binder,
            read_argument(tts, pos)->Ok_0.name,
            read_argument(tts, pos)->Ok_0.value,
        ).accepted,
        read_argument(tts, pos)->Ok_0.at + 2 < tts.len(),
        tts[read_argument(tts, pos)->Ok_0.at + 1] is Comma,
    ensures
        parse_from(tts, pos, p) == parse_from(
            tts,
            read_argument(tts, pos)->Ok_0.at + 2,
            Parse {
                binder: BinderView {
                    options: p.binder.options,
                    seen_named: p.binder.seen_named || read_argument(tts, pos)->Ok_0.name is Some,
                },
                good: false,
                diagnostics: p.diagnostics.push(
                    semantic_error(pos, read_argument(tts, pos)->Ok_0.at),
                ),
            },
        ),
{
}

/// No error is passed over in silence: a parse only appends to the errors
/// reported before it, and it is good exactly where it was good before and
/// appends none.
pub proof fn lemma_good_means_nothing_reported(tts: Seq<TokenView>, pos: int, p: Parse)
    ensures
        p.diagnostics.is_prefix_of(parse_from(tts, pos, p).diagnostics),
        parse_from(tts, pos, p).good <==> p.good && parse_from(tts, pos, p).diagnostics
            == p.diagnostics,
    decreases tts.len() - pos,
{
    match read_argument(tts, pos) {
        Err(error) => {},
        Ok(arg) => {
            let bound = bind(p.binder, arg.name, arg.value);
            let next = Parse {
                binder: bound.binder,
                good: p.good && bound.accepted,
                diagnostics: if bound.accepted {
                    p.diagnostics
                } else {
                    p.diagnostics.push(semantic_error(pos, arg.at))
                },
            };
            let sep = arg.at + 1;
            if sep < tts.len() && tts[sep] is Comma && sep + 1 < tts.len() {
                lemma_good_means_nothing_reported(tts, sep + 1, next);
            }
        },
    }
}

/// A syntax error ends the parse: of the errors that a parse appends, only
/// the last can be one.
pub proof fn lemma_syntax_error_is_last(tts: Seq<TokenView>, pos: int, p: Parse)
    ensures
        forall|i: int|
            p.diagnostics.len() <= i < parse_from(tts, pos, p).diagnostics.len() - 1
                ==> parse_from(tts, pos, p).diagnostics[i].kind == ErrorKind::Semantic,
    decreases tts.len() - pos,
{
    lemma_good_means_nothing_reported(tts, pos, p);
    match read_argument(tts, pos) {
        Err(error) => {},
        Ok(arg) => {
            let bound = bind(p.binder, arg.name, arg.value);
            let next = Parse {
                binder: bound.binder,
                good: p.good && bound.accepted,
                diagnostics: if bound.accepted {
                    p.diagnostics
                } else {
                    p.diagnostics.push(semantic_error(pos, arg.at))
                },
            };
            let sep = arg.at + 1;
            if sep < tts.len() && tts[sep] is Comma && sep + 1 < tts.len() {
                lemma_syntax_error_is_last(tts, sep + 1, next);
                lemma_good_means_nothing_reported(tts, sep + 1, next);
                let r = parse_from(tts, pos, p);
                assert forall|i: int|
                    p.diagnostics.len() <= i < r.diagnostics.len() - 1 implies r.diagnostics[i].kind
                    == ErrorKind::Semantic by {
                    if i < next.diagnostics.len() {
                        assert(r.diagnostics[i] == next.diagnostics[i]);
                    }
                }
            }
        },
    }
}

/// A parse only appends to the three lists, whatever it rejects and
/// wherever it stops: what they held stays, in its order, at their start.
/// And once an argument had a name, the parse ends knowing so.
pub proof fn lemma_parse_only_appends(tts: Seq<TokenView>, pos: int, p: Parse)
    ensures
        p.binder.options.clang_args.is_prefix_of(
            parse_from(tts, pos, p).binder.options.clang_args,
        ),
        p.binder.options.match_pat.is_prefix_of(parse_from(tts, pos, p).binder.options.match_pat),
        p.binder.options.links.is_prefix_of(parse_from(tts, pos, p).binder.options.links),
        p.binder.seen_named ==> parse_from(tts, pos, p).binder.seen_named,
    decreases tts.len() - pos,
{
    match read_argument(tts, pos) {
        Err(error) => {},
        Ok(arg) => {
            let bound = bind(p.binder, arg.name, arg.value);
            lemma_lists_only_grow(p.binder, arg.name, arg.value);
            let next = Parse {
                binder: bound.binder,
                good: p.good && bound.accepted,
                diagnostics: if bound.accepted {
                    p.diagnostics
                } else {
                    p.diagnostics.push(semantic_error(pos, arg.at))
                },
            };
            let sep = arg.at + 1;
            if sep < tts.len() && tts[sep] is Comma && sep + 1 < tts.len() {
                lemma_parse_only_appends(tts, sep + 1, next);
            }
        },
    }
}

/// The name of an argument, borrowed.
pub fn as_str<'a>(owned: &'a Option<String>) -> (borrowed: Option<&'a str>)
    ensures
        opt_view(borrowed) == match *owned {
            Some(s) => Some(s@),
            None => None,
        },
{
    match owned {
        Some(s) => Some(s.as_str()),
        None => None,
    }
}

/// The typed value that `token` stands for in the place of a value.
pub fn typed_literal<'a>(token: &'a Token) -> (value: Option<TypedLiteral<'a>>)
    ensures
        match value {
            Some(v) => literal_of(token@) == Some(v@),
            None => literal_of(token@) is None,
        },
{
    match token {
        Token::Ident(word) => {
            // Bools are simply encoded as idents
            if str_eq(word.as_str(), "true") {
                Some(TypedLiteral::Bool(true))
            } else if str_eq(word.as_str(), "false") {
                Some(TypedLiteral::Bool(false))
            } else {
                Some(TypedLiteral::Ident(word.as_str()))
            }
        },
        Token::Literal(lit) => match lit {
            Lit::Str(s) => Some(TypedLiteral::Str(s.as_str())),
            Lit::Bool(b) => Some(TypedLiteral::Bool(*b)),
            Lit::Int(i, LitIntType::Signed) => Some(
                TypedLiteral::Int(#[verifier::truncate] (*i as i64)),
            ),
            Lit::Int(i, _) => Some(TypedLiteral::UInt(*i)),
            Lit::Other => None,
        },
        _ => None,
    }
}

/// Parses the arguments `tts` and binds each to `options`. Appends every
/// error to `diagnostics`. Returns whether every argument was well formed
/// and accepted.
pub fn parse_macro_opts(
    diagnostics: &mut Vec<Diagnostic>,
    tts: &[Token],
    options: &mut BindgenOptions,
) -> (good: bool)
    ensures
        good == parse(token_views(tts@), old(options)@, old(diagnostics)@).good,
        final(options)@ == parse(
            token_views(tts@),
            old(options)@,
            old(diagnostics)@,
        ).binder.options,
        final(diagnostics)@ == parse(
            token_views(tts@),
            old(options)@,
            old(diagnostics)@,
        ).diagnostics,
{
    let ghost tokens = token_views(tts@);
    let ghost result = parse(tokens, options@, diagnostics@);
    let mut visit = BindgenArgsVisitor { options: options, seen_named: false };
    let mut args_good = true;
    let mut pos: usize = 0;
    loop
        invariant
            pos <= tts.len(),
            tokens == token_views(tts@),
            tokens.len() == tts.len(),
            result == parse(tokens, old(options)@, old(diagnostics)@),
            parse_from(
                tokens,
                pos as int,
                Parse { binder: visit@, good: args_good, diagnostics: diagnostics@ },
            ) == result,
            *final(visit.options) == after_borrow(*options),
        decreases tts.len() - pos,
    {
        let start = pos;
        let mut name: Option<String> = None;

        // Check for [ident=]value and if found save ident to name
        if tts.len() - pos > 1 && matches!(tts[pos + 1], Token::Eq) {
            match &tts[pos] {
                Token::Ident(ident) => {
                    name = Some(ident.clone());
                    pos += 2;
                },
                _ => {
                    diagnostics.push(Diagnostic { kind: ErrorKind::Syntax, lo: start, hi: start });
                    return false;
                },
            }
        }
        let value = if pos < tts.len() {
            typed_literal(&tts[pos])
        } else {
            None
        };
        match value {
            Some(value) => {
                if !visit.visit(as_str(&name), value) {
                    diagnostics.push(Diagnostic { kind: ErrorKind::Semantic, lo: start, hi: pos });
                    args_good = false;
                }
            },
            None => {
                diagnostics.push(Diagnostic { kind: ErrorKind::Syntax, lo: start, hi: pos });
                return false;
            },
        }
        pos += 1;

        if pos == tts.len() {
            return args_good;
        }
        if !matches!(tts[pos], Token::Comma) {
            diagnostics.push(Diagnostic { kind: ErrorKind::Syntax, lo: pos, hi: pos });
            return false;
        }
        pos += 1;
        if pos == tts.len() {
            return args_good;
        }
    }
}

} // verus!
