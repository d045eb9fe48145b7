//! The options that drive the generation of bindings.

use vstd::prelude::*;

verus! {

/// How a library is linked.
#[derive(Clone, Copy, Debug, PartialEq, Eq, Structural)]
pub enum LinkType {
    Static,
    Dynamic,
    Framework,
}

/// The options that an argument list fills in. The three lists only ever
/// grow at their end; the order of their items is the order in which the
/// arguments came.
#[derive(Clone, Debug, PartialEq, Eq)]
pub struct BindgenOptions {
    pub match_pat: Vec<String>,
    pub builtins: bool,
    pub links: Vec<(String, LinkType)>,
    pub fail_on_unknown_type: bool,
    pub override_enum_ty: String,
    pub clang_args: Vec<String>,
}

/// The options as mathematical values.
pub struct OptionsView {
    pub match_pat: Seq<Seq<char>>,
    pub builtins: bool,
    pub links: Seq<(Seq<char>, LinkType)>,
    pub fail_on_unknown_type: bool,
    pub override_enum_ty: Seq<char>,
    pub clang_args: Seq<Seq<char>>,
}

/// A link as mathematical values.
pub open spec fn link_view(link: (String, LinkType)) -> (Seq<char>, LinkType) {
    (link.0@, link.1)
}

/// The options before any argument is bound: builtins on, nothing else set.
pub open spec fn default_options() -> OptionsView {
    OptionsView {
        match_pat: seq![],
        builtins: true,
        links: seq![],
        fail_on_unknown_type: false,
        override_enum_ty: seq![],
        clang_args: seq![],
    }
}

/// The compiler arguments that name the search paths: `-idirafter` and the
/// directory for each system directory in turn, then `-I` and the directory
/// of the header.
pub open spec fn search_path_args(system_dirs: Seq<Seq<char>>, header_dir: Seq<char>) -> Seq<
    Seq<char>,
>
    decreases system_dirs.len(),
{
    if system_dirs.len() == 0 {
        seq!["-I"@, header_dir]
    } else {
        seq!["-idirafter"@, system_dirs[0]] + search_path_args(
            system_dirs.drop_first(),
            header_dir,
        )
    }
}

impl View for BindgenOptions {
    type V = OptionsView;

    open spec fn view(&self) -> OptionsView {
        OptionsView {
            match_pat: self.match_pat.deep_view(),
            builtins: self.builtins,
            links: self.links@.map_values(|l: (String, LinkType)| link_view(l)),
            fail_on_unknown_type: self.fail_on_unknown_type,
            override_enum_ty: self.override_enum_ty@,
            clang_args: self.clang_args.deep_view(),
        }
    }
}

impl Default for BindgenOptions {
    fn default() -> (options: BindgenOptions)
        ensures
            options@ == default_options(),
    {
        let options = BindgenOptions {
            match_pat: Vec::new(),
            builtins: true,
            links: Vec::new(),
            fail_on_unknown_type: false,
            override_enum_ty: String::new(),
            clang_args: Vec::new(),
        };
        assert(options.match_pat.deep_view() == Seq::<Seq<char>>::empty());
        assert(options@.links == Seq::<(Seq<char>, LinkType)>::empty());
        options
    }
}

impl BindgenOptions {
    /// Appends the compiler arguments that name the search paths.
    pub fn add_search_paths(&mut self, system_dirs: &Vec<String>, header_dir: &str)
        ensures
            final(self)@ == (OptionsView {
                clang_args: old(self)@.clang_args + search_path_args(
                    system_dirs.deep_view(),
                    header_dir@,
                ),
                ..old(self)@
            }),
    {
        let mut i: usize = 0;
        assert(system_dirs.deep_view().skip(0) == system_dirs.deep_view());
        while i < system_dirs.len()
            invariant
                i <= system_dirs.len(),
                self.match_pat == old(self).match_pat,
                self.builtins == old(self).builtins,
                self.links == old(self).links,
                self.fail_on_unknown_type == old(self).fail_on_unknown_type,
                self.override_enum_ty == old(self).override_enum_ty,
                self.clang_args.deep_view() + search_path_args(
                    system_dirs.deep_view().skip(i as int),
                    header_dir@,
                ) == old(self).clang_args.deep_view() + search_path_args(
                    system_dirs.deep_view(),
                    header_dir@,
                ),
            decreases system_dirs.len() - i,
        {
            let ghost rest = system_dirs.deep_view().skip(i as int);
            self.clang_args.push("-idirafter".to_owned());
            self.clang_args.push(system_dirs[i].clone());
            assert(rest.drop_first() == system_dirs.deep_view().skip(i as int + 1));
            i += 1;
        }
        let ghost before = self.clang_args.deep_view();
        self.clang_args.push("-I".to_owned());
        self.clang_args.push(header_dir.to_owned());
        assert(self.clang_args.deep_view() == before + seq!["-I"@, header_dir@]);
    }
}

} // verus!
