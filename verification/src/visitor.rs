//! Binding one argument, a name and a typed value, to the options.

use crate::options::{link_view, BindgenOptions, LinkType, OptionsView};
use crate::process_args::{parse_process_args, split_args};
use crate::text::{chars_of, opt_view, str_eq, string_of};
use vstd::prelude::*;

verus! {

/// The value of one argument, as the lexer typed it.
#[derive(Clone, Copy, Debug, PartialEq, Eq)]
pub enum TypedLiteral<'a> {
    Str(&'a str),
    Int(i64),
    UInt(u64),
    Bool(bool),
    /// A bare word other than `true` and `false`.
    Ident(&'a str),
}

/// A typed value as mathematical values.
pub enum LiteralView {
    Str(Seq<char>),
    Int(i64),
    UInt(u64),
    Bool(bool),
    Ident(Seq<char>),
}

impl<'a> View for TypedLiteral<'a> {
    type V = LiteralView;

    open spec fn view(&self) -> LiteralView {
        match *self {
            TypedLiteral::Str(s) => LiteralView::Str(s@),
            TypedLiteral::Int(i) => LiteralView::Int(i),
            TypedLiteral::UInt(u) => LiteralView::UInt(u),
            TypedLiteral::Bool(b) => LiteralView::Bool(b),
            TypedLiteral::Ident(s) => LiteralView::Ident(s@),
        }
    }
}

/// The options under construction, and whether an argument with a name has
/// been seen.
pub struct BindgenArgsVisitor<'a> {
    pub options: &'a mut BindgenOptions,
    pub seen_named: bool,
}

/// The visitor as mathematical values.
pub struct BinderView {
    pub options: OptionsView,
    pub seen_named: bool,
}

impl<'a> View for BindgenArgsVisitor<'a> {
    type V = BinderView;

    open spec fn view(&self) -> BinderView {
        BinderView { options: self.options@, seen_named: self.seen_named }
    }
}

/// What binding one argument gives: the visitor after it, and whether the
/// argument was accepted.
pub struct Binding {
    pub binder: BinderView,
    pub accepted: bool,
}

/// The index of the first `c` in `s`; the length of `s` if there is none.
pub open spec fn find(s: Seq<char>, c: char) -> int
    decreases s.len(),
{
    if s.len() == 0 || s[0] == c {
        0
    } else {
        1 + find(s.drop_first(), c)
    }
}

/// The kind of link that a word names.
pub open spec fn link_kind(word: Seq<char>) -> Option<LinkType> {
    if word == "static"@ {
        Some(LinkType::Static)
    } else if word == "dynamic"@ {
        Some(LinkType::Dynamic)
    } else if word == "framework"@ {
        Some(LinkType::Framework)
    } else {
        None
    }
}

/// The link that `val` specifies: `name` links dynamically, `kind=name`
/// links as the kind says. More than one `=`, or an unknown kind, specifies
/// none.
pub open spec fn link_of(val: Seq<char>) -> Option<(Seq<char>, LinkType)> {
    let i = find(val, '=');
    if i == val.len() {
        Some((val, LinkType::Dynamic))
    } else {
        let name = val.skip(i + 1);
        if find(name, '=') < name.len() {
            None
        } else {
            match link_kind(val.take(i)) {
                Some(kind) => Some((name, kind)),
                None => None,
            }
        }
    }
}

/// The option that a string value is bound to: the one it names, or, where
/// it names none and no argument before it had a name, `clang_args`.
pub open spec fn str_option(seen_named: bool, name: Option<Seq<char>>) -> Option<Seq<char>> {
    match name {
        Some(n) => Some(n),
        None => if seen_named {
            None
        } else {
            Some("clang_args"@)
        },
    }
}

/// The options after binding the string `val` to `option`; `None` where it
/// is rejected.
pub open spec fn bind_str(o: OptionsView, option: Option<Seq<char>>, val: Seq<char>) -> Option<
    OptionsView,
> {
    match option {
        None => None,
        Some(n) => if n == "link"@ {
            match link_of(val) {
                Some(link) => Some(OptionsView { links: o.links.push(link), ..o }),
                None => None,
            }
        } else if n == "match"@ {
            Some(OptionsView { match_pat: o.match_pat.push(val), ..o })
        } else if n == "clang_args"@ {
            Some(OptionsView { clang_args: o.clang_args + split_args(val), ..o })
        } else if n == "enum_type"@ {
            Some(OptionsView { override_enum_ty: val, ..o })
        } else {
            None
        },
    }
}

/// The options after binding the boolean `val` to the option `name`;
/// `None` where it is rejected.
pub open spec fn bind_bool(o: OptionsView, name: Option<Seq<char>>, val: bool) -> Option<
    OptionsView,
> {
    match name {
        None => None,
        Some(n) => if n == "allow_unknown_types"@ {
            Some(OptionsView { fail_on_unknown_type: !val, ..o })
        } else if n == "builtins"@ {
            Some(OptionsView { builtins: val, ..o })
        } else {
            None
        },
    }
}

/// The options after binding one argument; `None` where it is rejected.
/// No option takes an integer or a bare word.
pub open spec fn bound_options(
    b: BinderView,
    name: Option<Seq<char>>,
    value: LiteralView,
) -> Option<OptionsView> {
    match value {
        LiteralView::Str(val) => bind_str(b.options, str_option(b.seen_named, name), val),
        LiteralView::Bool(val) => bind_bool(b.options, name, val),
        LiteralView::Int(_) => None,
        LiteralView::UInt(_) => None,
        LiteralView::Ident(_) => None,
    }
}

/// Binding one argument. A name is remembered whether or not the argument
/// is accepted; a rejected argument leaves the options as they were.
pub open spec fn bind(b: BinderView, name: Option<Seq<char>>, value: LiteralView) -> Binding {
    let seen_named = b.seen_named || name is Some;
    match bound_options(b, name, value) {
        Some(options) => Binding { binder: BinderView { options, seen_named }, accepted: true },
        None => Binding {
            binder: BinderView { options: b.options, seen_named },
            accepted: false,
        },
    }
}

/// A name is remembered from the argument that has it on, whether or not
/// that argument is accepted, and is never forgotten.
pub proof fn lemma_seen_named_is_monotone(
    b: BinderView,
    name: Option<Seq<char>>,
    value: LiteralView,
)
    ensures
        bind(b, name, value).binder.seen_named == (b.seen_named || name is Some),
        b.seen_named ==> bind(b, name, value).binder.seen_named,
{
}

/// A rejected argument leaves every option as it was.
pub proof fn lemma_rejected_changes_nothing(
    b: BinderView,
    name: Option<Seq<char>>,
    value: LiteralView,
)
    requires
        !bind(b, name, value).accepted,
    ensures
        bind(b, name, value).binder.options == b.options,
{
}

/// Binding an argument only appends to the three lists: what they held
/// stays, in its order, at their start.
pub proof fn lemma_lists_only_grow(b: BinderView, name: Option<Seq<char>>, value: LiteralView)
    ensures
        b.options.clang_args.is_prefix_of(bind(b, name, value).binder.options.clang_args),
        b.options.match_pat.is_prefix_of(bind(b, name, value).binder.options.match_pat),
        b.options.links.is_prefix_of(bind(b, name, value).binder.options.links),
{
}

/// A string without a name, before any argument with a name, is taken as
/// `clang_args`: its tokens are appended to the compiler arguments, and
/// nothing else changes.
pub proof fn lemma_positional_string_is_clang_args(b: BinderView, val: Seq<char>)
    requires
        !b.seen_named,
    ensures
        bind(b, None, LiteralView::Str(val)) == (Binding {
            binder: BinderView {
                options: OptionsView {
                    clang_args: b.options.clang_args + split_args(val),
                    ..b.options
                },
                seen_named: false,
            },
            accepted: true,
        }),
{
    reveal_strlit("clang_args");
    reveal_strlit("link");
    reveal_strlit("match");
    assert("clang_args"@.len() != "link"@.len());
}

/// A string without a name, after an argument with a name, is rejected and
/// changes nothing.
pub proof fn lemma_positional_string_after_named(b: BinderView, val: Seq<char>)
    requires
        b.seen_named,
    ensures
        bind(b, None, LiteralView::Str(val)) == (Binding { binder: b, accepted: false }),
{
}

/// `allow_unknown_types` sets `fail_on_unknown_type` to the opposite of its
/// value.
pub proof fn lemma_allow_unknown_types_inverts(b: BinderView, val: bool)
    ensures
        bind(b, Some("allow_unknown_types"@), LiteralView::Bool(val)) == (Binding {
            binder: BinderView {
                options: OptionsView { fail_on_unknown_type: !val, ..b.options },
                seen_named: true,
            },
            accepted: true,
        }),
{
}

/// Two `match` arguments append their patterns in the order in which they
/// come.
pub proof fn lemma_match_keeps_order(b: BinderView, first: Seq<char>, second: Seq<char>)
    ensures
        bind(
            bind(b, Some("match"@), LiteralView::Str(first)).binder,
            Some("match"@),
            LiteralView::Str(second),
        ).binder.options.match_pat == b.options.match_pat.push(first).push(second),
{
    reveal_strlit("link");
    reveal_strlit("match");
    assert("match"@.len() != "link"@.len());
}

/// A specification without `=` names a library that is linked dynamically.
pub proof fn lemma_link_without_kind(val: Seq<char>)
    requires
        !val.contains('='),
    ensures
        link_of(val) == Some((val, LinkType::Dynamic)),
{
    lemma_find(val, '=');
}

/// `kind=name`, where the kind is known and the name holds no `=`, names the
/// library `name`, linked as the kind says.
pub proof fn lemma_link_with_kind(kind: Seq<char>, name: Seq<char>)
    requires
        link_kind(kind) is Some,
        !name.contains('='),
    ensures
        link_of(kind + seq!['='] + name) == Some((name, link_kind(kind)->0)),
{
    reveal_strlit("static");
    reveal_strlit("dynamic");
    reveal_strlit("framework");
    let val = kind + seq!['='] + name;
    let i = kind.len() as int;
    assert(val[i] == '=');
    lemma_find(val, '=');
    assert(val.take(i) == kind);
    assert(val.skip(i + 1) == name);
    lemma_find(name, '=');
}

/// `find` gives the first place where `c` stands, and the length where it
/// stands nowhere.
pub proof fn lemma_find(s: Seq<char>, c: char)
    ensures
        0 <= find(s, c) <= s.len(),
        find(s, c) < s.len() ==> s[find(s, c)] == c,
        forall|k: int| 0 <= k < find(s, c) ==> s[k] != c,
        find(s, c) == s.len() <==> !s.contains(c),
    decreases s.len(),
{
    if s.len() == 0 || s[0] == c {
    } else {
        let rest = s.drop_first();
        lemma_find(rest, c);
        assert forall|k: int| 0 <= k < find(s, c) implies s[k] != c by {
            if k > 0 {
                assert(s[k] == rest[k - 1]);
            }
        }
    }
}

/// The index of the first `c` in `v[from..]`; the length of `v` if there is
/// none.
fn find_char(v: &Vec<char>, from: usize, c: char) -> (i: usize)
    requires
        from <= v.len(),
    ensures
        from <= i <= v.len(),
        i == from + find(v@.skip(from as int), c),
{
    let mut i: usize = from;
    while i < v.len() && v[i] != c
        invariant
            from <= i <= v.len(),
            find(v@.skip(from as int), c) == (i - from) + find(v@.skip(i as int), c),
        decreases v.len() - i,
    {
        assert(v@.skip(i as int).drop_first() == v@.skip(i as int + 1));
        i += 1;
    }
    i
}

/// The kind of link that `word` names.
fn parse_link_kind(word: &str) -> (kind: Option<LinkType>)
    ensures
        kind == link_kind(word@),
{
    if str_eq(word, "static") {
        Some(LinkType::Static)
    } else if str_eq(word, "dynamic") {
        Some(LinkType::Dynamic)
    } else if str_eq(word, "framework") {
        Some(LinkType::Framework)
    } else {
        None
    }
}

/// The link that `val` specifies.
pub fn parse_link(val: &str) -> (link: Option<(String, LinkType)>)
    ensures
        match link {
            Some(l) => link_of(val@) == Some(link_view(l)),
            None => link_of(val@) is None,
        },
{
    let v = chars_of(val);
    assert(v@.skip(0) == v@);
    let i = find_char(&v, 0, '=');
    if i == v.len() {
        return Some((val.to_owned(), LinkType::Dynamic));
    }
    let j = find_char(&v, i + 1, '=');
    if j < v.len() {
        return None;
    }
    let kind = string_of(&v, 0, i);
    match parse_link_kind(kind.as_str()) {
        Some(kind) => Some((string_of(&v, i + 1, v.len()), kind)),
        None => None,
    }
}

/// Each method binds one argument as `bind` says, and tells whether it was
/// accepted. The visitor goes on writing to the options that it was made
/// with: that is what the last clause of each contract states.
impl<'a> BindgenArgsVisitor<'a> {
    /// Binds a string: to `link`, `match`, `clang_args` or `enum_type`, or,
    /// without a name and before any argument with one, to `clang_args`.
    pub fn visit_str(&mut self, name: Option<&str>, val: &str) -> (accepted: bool)
        ensures
            final(self)@ == bind(old(self)@, opt_view(name), LiteralView::Str(val@)).binder,
            accepted == bind(old(self)@, opt_view(name), LiteralView::Str(val@)).accepted,
            *final(final(self).options) == *final(old(self).options),
    {
        let mut name = name;
        if name.is_some() {
            self.seen_named = true;
        } else if !self.seen_named {
            name = Some("clang_args");
        }
        let ghost before = self.options@;
        match name {
            Some(n) => {
                if str_eq(n, "link") {
                    match parse_link(val) {
                        Some(link) => {
                            self.options.links.push(link);
                            assert(self.options@.links == before.links.push(link_view(link)));
                        },
                        None => {
                            return false;
                        },
                    }
                } else if str_eq(n, "match") {
                    self.options.match_pat.push(val.to_owned());
                    assert(self.options@.match_pat == before.match_pat.push(val@));
                } else if str_eq(n, "clang_args") {
                    let mut args = parse_process_args(val);
                    self.options.clang_args.append(&mut args);
                    assert(self.options@.clang_args == before.clang_args + split_args(val@));
                } else if str_eq(n, "enum_type") {
                    self.options.override_enum_ty = val.to_owned();
                } else {
                    return false;
                }
            },
            None => {
                return false;
            },
        }
        true
    }

    /// Rejects a signed integer: no option takes one.
    pub fn visit_int(&mut self, name: Option<&str>, val: i64) -> (accepted: bool)
        ensures
            final(self)@ == bind(old(self)@, opt_view(name), LiteralView::Int(val)).binder,
            accepted == bind(old(self)@, opt_view(name), LiteralView::Int(val)).accepted,
            *final(final(self).options) == *final(old(self).options),
    {
        if name.is_some() {
            self.seen_named = true;
        }
        false
    }

    /// Rejects an unsigned integer: no option takes one.
    pub fn visit_uint(&mut self, name: Option<&str>, val: u64) -> (accepted: bool)
        ensures
            final(self)@ == bind(old(self)@, opt_view(name), LiteralView::UInt(val)).binder,
            accepted == bind(old(self)@, opt_view(name), LiteralView::UInt(val)).accepted,
            *final(final(self).options) == *final(old(self).options),
    {
        if name.is_some() {
            self.seen_named = true;
        }
        false
    }

    /// Binds a boolean: to `allow_unknown_types` or `builtins`.
    pub fn visit_bool(&mut self, name: Option<&str>, val: bool) -> (accepted: bool)
        ensures
            final(self)@ == bind(old(self)@, opt_view(name), LiteralView::Bool(val)).binder,
            accepted == bind(old(self)@, opt_view(name), LiteralView::Bool(val)).accepted,
            *final(final(self).options) == *final(old(self).options),
    {
        if name.is_some() {
            self.seen_named = true;
        }
        match name {
            Some(n) => {
                if str_eq(n, "allow_unknown_types") {
                    self.options.fail_on_unknown_type = !val;
                } else if str_eq(n, "builtins") {
                    self.options.builtins = val;
                } else {
                    return false;
                }
            },
            None => {
                return false;
            },
        }
        true
    }

    /// Rejects a bare word: no option takes one.
    pub fn visit_ident(&mut self, name: Option<&str>, ident: &str) -> (accepted: bool)
        ensures
            final(self)@ == bind(old(self)@, opt_view(name), LiteralView::Ident(ident@)).binder,
            accepted == bind(old(self)@, opt_view(name), LiteralView::Ident(ident@)).accepted,
            *final(final(self).options) == *final(old(self).options),
    {
        if name.is_some() {
            self.seen_named = true;
        }
        false
    }

    /// Binds one argument: the value goes to the method for its kind.
    pub fn visit(&mut self, name: Option<&str>, value: TypedLiteral<'_>) -> (accepted: bool)
        ensures
            final(self)@ == bind(old(self)@, opt_view(name), value@).binder,
            accepted == bind(old(self)@, opt_view(name), value@).accepted,
            *final(final(self).options) == *final(old(self).options),
    {
        match value {
            TypedLiteral::Str(val) => self.visit_str(name, val),
            TypedLiteral::Int(val) => self.visit_int(name, val),
            TypedLiteral::UInt(val) => self.visit_uint(name, val),
            TypedLiteral::Bool(val) => self.visit_bool(name, val),
            TypedLiteral::Ident(ident) => self.visit_ident(name, ident),
        }
    }
}

} // verus!
