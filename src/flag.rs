//! Command-line flags in the style `-name value` or `-name`: parsing the
//! arguments, then taking each defined flag out of what was parsed.
use vstd::prelude::*;
use vstd::string::StrSliceExecFns;

verus! {

/// One parsed argument: `-name value` or `-name`.
struct Flag {
    name: String,
    value: Option<String>,
}

/// A flag's default value.
#[derive(Clone, Copy, Debug)]
pub enum FlagValue {
    Bool(bool),
    Str(&'static str),
}

/// A defined flag, kept for the help text.
#[derive(Clone, Copy, Debug)]
pub struct FlagDef {
    pub name: &'static str,
    pub desc: &'static str,
    pub def_val: FlagValue,
}

/// Why the arguments were refused.
#[derive(Debug)]
pub enum FlagError {
    /// An argument stands where a `-name` was expected.
    NameExpected(String),
    /// A boolean flag was given a value.
    TakesNoValue,
    /// A string flag was given without a value.
    ExpectsValue,
}

/// What a parsed flag is: its name without the `-`, and its value.
pub type FlagView = (Seq<char>, Option<Seq<char>>);

pub open spec fn is_flag_arg(s: Seq<char>) -> bool {
    s.len() > 0 && s[0] == '-'
}

/// `r` with `pre` in front of its parsed flags.
pub open spec fn prepend(pre: Seq<FlagView>, r: Result<Seq<FlagView>, Seq<char>>) -> Result<Seq<FlagView>, Seq<char>> {
    match r {
        Ok(x) => Ok(pre + x),
        Err(e) => Err(e),
    }
}

/// The flags that the arguments give, or the first argument that stands
/// where a `-name` was expected. An argument after `-name` that does not
/// itself start with `-` is that flag's value.
pub open spec fn parse_args(args: Seq<Seq<char>>) -> Result<Seq<FlagView>, Seq<char>>
    decreases args.len(),
{
    if args.len() == 0 {
        Ok(Seq::empty())
    } else if !is_flag_arg(args[0]) {
        Err(args[0])
    } else if args.len() >= 2 && !is_flag_arg(args[1]) {
        prepend(seq![(args[0].drop_first(), Some(args[1]))], parse_args(args.subrange(2, args.len() as int)))
    } else {
        prepend(seq![(args[0].drop_first(), None::<Seq<char>>)], parse_args(args.drop_first()))
    }
}

/// Index of the first parsed flag named `name`, or -1.
pub open spec fn first_named(parsed: Seq<FlagView>, name: Seq<char>) -> int
    decreases parsed.len(),
{
    if parsed.len() == 0 {
        -1
    } else if parsed[0].0 == name {
        0
    } else if first_named(parsed.drop_first(), name) < 0 {
        -1
    } else {
        first_named(parsed.drop_first(), name) + 1
    }
}

proof fn lemma_first_named_bounds(parsed: Seq<FlagView>, name: Seq<char>)
    ensures
        -1 <= first_named(parsed, name) < parsed.len(),
        first_named(parsed, name) >= 0 ==> parsed[first_named(parsed, name)].0 == name,
        first_named(parsed, name) < 0 ==> forall|j: int| 0 <= j < parsed.len() ==> (#[trigger] parsed[j]).0 != name,
        forall|j: int| 0 <= j < first_named(parsed, name) ==> (#[trigger] parsed[j]).0 != name,
    decreases parsed.len(),
{
    if parsed.len() > 0 {
        let t = parsed.drop_first();
        lemma_first_named_bounds(t, name);
        let f = first_named(parsed, name);
        assert forall|j: int| 0 <= j < parsed.len() && (f < 0 || j < f) implies (#[trigger] parsed[j]).0 != name by {
            if j > 0 {
                assert(parsed[j] == t[j - 1]);
            }
        }
        if f > 0 {
            assert(parsed[f] == t[f - 1]);
        }
    }
}

spec fn flag_view(f: &Flag) -> FlagView {
    (f.name@, match f.value {
        Some(v) => Some(v@),
        None => None,
    })
}

pub open spec fn args_view(args: Seq<String>) -> Seq<Seq<char>> {
    args.map_values(|s: String| s@)
}

/// The parsed arguments, and the flags defined so far.
pub struct Flags {
    parsed: Vec<Flag>,
    defined: Vec<FlagDef>,
}

fn is_flag_str(s: &str) -> (r: bool)
    ensures
        r == is_flag_arg(s@),
{
    s.unicode_len() > 0 && s.get_char(0) == '-'
}

impl Flags {
    /// The flags parsed and not yet taken, in order.
    pub closed spec fn parsed_view(&self) -> Seq<FlagView> {
        self.parsed@.map_values(|f: Flag| flag_view(&f))
    }

    /// The flags defined so far, in order.
    pub closed spec fn defined_view(&self) -> Seq<FlagDef> {
        self.defined@
    }

    /// Parses the arguments (without the program name).
    pub fn parse(args: Vec<String>) -> (r: Result<Flags, FlagError>)
        ensures
            r matches Ok(f) ==> parse_args(args_view(args@)) == Ok::<Seq<FlagView>, Seq<char>>(f.parsed_view())
                && f.defined_view().len() == 0,
            r matches Err(e) ==> (e matches FlagError::NameExpected(a)
                && parse_args(args_view(args@)) == Err::<Seq<FlagView>, Seq<char>>(a@)),
    {
        let ghost all = args_view(args@);
        let mut res = Flags { parsed: Vec::new(), defined: Vec::new() };
        let n = args.len();
        let mut i: usize = 0;
        assert(all.subrange(0, n as int) =~= all);
        while i < n
            invariant
                n == args@.len(),
                all == args_view(args@),
                i <= n,
                res.defined@.len() == 0,
                parse_args(all) == prepend(res.parsed_view(), parse_args(all.subrange(i as int, n as int))),
            decreases n - i,
        {
            let ghost rest = all.subrange(i as int, n as int);
            let ghost before = res.parsed_view();
            let arg = &args[i];
            assert(rest[0] == arg@);
            if !is_flag_str(arg.as_str()) {
                return Err(FlagError::NameExpected(arg.clone()));
            }
            let len = arg.as_str().unicode_len();
            let name: String = arg.as_str().substring_char(1, len).to_owned();
            assert(name@ =~= rest[0].drop_first());
            if i + 1 < n && !is_flag_str(args[i + 1].as_str()) {
                let value = args[i + 1].clone();
                assert(rest[1] == args[i + 1]@);
                let ghost tail = all.subrange(i + 2, n as int);
                assert(rest.subrange(2, rest.len() as int) =~= tail);
                let ghost e: FlagView = (rest[0].drop_first(), Some(rest[1]));
                res.parsed.push(Flag { name, value: Some(value) });
                assert(res.parsed_view() =~= before + seq![e]);
                assert(parse_args(rest) == prepend(seq![e], parse_args(tail)));
                proof {
                    match parse_args(tail) {
                        Ok(x) => {
                            assert(before + (seq![e] + x) =~= (before + seq![e]) + x);
                        },
                        Err(_) => {},
                    }
                }
                i = i + 2;
            } else {
                if i + 1 < n {
                    assert(rest[1] == args[i + 1]@);
                }
                let ghost tail = all.subrange(i + 1, n as int);
                assert(rest.drop_first() =~= tail);
                let ghost e: FlagView = (rest[0].drop_first(), None::<Seq<char>>);
                res.parsed.push(Flag { name, value: None });
                assert(res.parsed_view() =~= before + seq![e]);
                assert(parse_args(rest) == prepend(seq![e], parse_args(tail)));
                proof {
                    match parse_args(tail) {
                        Ok(x) => {
                            assert(before + (seq![e] + x) =~= (before + seq![e]) + x);
                        },
                        Err(_) => {},
                    }
                }
                i = i + 1;
            }
        }
        assert(all.subrange(n as int, n as int) =~= Seq::<Seq<char>>::empty());
        assert(res.parsed_view() + Seq::<FlagView>::empty() =~= res.parsed_view());
        Ok(res)
    }

    /// Index of the first parsed flag named `name`.
    fn find(&self, name: &str) -> (r: Option<usize>)
        ensures
            r matches Some(i) ==> i == first_named(self.parsed_view(), name@),
            r is None ==> first_named(self.parsed_view(), name@) == -1,
    {
        proof {
            lemma_first_named_bounds(self.parsed_view(), name@);
        }
        let key: String = name.to_owned();
        let n = self.parsed.len();
        let mut i: usize = 0;
        while i < n
            invariant
                n == self.parsed@.len(),
                i <= n,
                key@ == name@,
                forall|j: int| 0 <= j < i ==> (#[trigger] self.parsed_view()[j]).0 != name@,
            decreases n - i,
        {
            assert(self.parsed_view()[i as int] == flag_view(&self.parsed@[i as int]));
            if self.parsed[i].name == key {
                proof {
                    lemma_first_named_bounds(self.parsed_view(), name@);
                    let f = first_named(self.parsed_view(), name@);
                    if f >= 0 && f < i {
                        assert(self.parsed_view()[f].0 != name@);
                    }
                    if f < 0 || f > i {
                        assert(self.parsed_view()[i as int].0 != name@);
                    }
                }
                return Some(i);
            }
            i = i + 1;
        }
        proof {
            lemma_first_named_bounds(self.parsed_view(), name@);
            let f = first_named(self.parsed_view(), name@);
            if f >= 0 {
                assert(self.parsed_view()[f].0 != name@);
            }
        }
        None
    }

    /// Defines a boolean flag and takes it out of the parsed flags: `true`
    /// when it was given, `def` when it was not; a value after it is refused.
    pub fn flag_bool(&mut self, name: &'static str, desc: &'static str, def: bool) -> (r: Result<bool, FlagError>)
        ensures
            final(self).defined_view() == old(self).defined_view().push(
                (FlagDef { name, desc, def_val: FlagValue::Bool(def) }),
            ),
            ({
                let i = first_named(old(self).parsed_view(), name@);
                &&& i < 0 ==> final(self).parsed_view() == old(self).parsed_view() && r == Ok::<bool, FlagError>(def)
                &&& i >= 0 ==> final(self).parsed_view() == old(self).parsed_view().remove(i)
                &&& i >= 0 && old(self).parsed_view()[i].1 is None ==> r == Ok::<bool, FlagError>(true)
                &&& i >= 0 && old(self).parsed_view()[i].1 is Some ==> (r matches Err(FlagError::TakesNoValue))
            }),
    {
        self.defined.push(FlagDef { name, desc, def_val: FlagValue::Bool(def) });
        proof {
            lemma_first_named_bounds(self.parsed_view(), name@);
        }
        match self.find(name) {
            Some(i) => {
                let ghost before = self.parsed@;
                let flag = self.parsed.remove(i);
                assert(self.parsed_view() =~= old(self).parsed_view().remove(i as int));
                assert(old(self).parsed_view()[i as int] == flag_view(&before[i as int]));
                match flag.value {
                    None => Ok(true),
                    Some(_) => Err(FlagError::TakesNoValue),
                }
            },
            None => Ok(def),
        }
    }

    /// Defines a string flag and takes it out of the parsed flags: its value
    /// when it was given, `def` when it was not; a missing value is refused.
    pub fn flag_str(&mut self, name: &'static str, desc: &'static str, def: &'static str) -> (r: Result<String, FlagError>)
        ensures
            final(self).defined_view() == old(self).defined_view().push(
                (FlagDef { name, desc, def_val: FlagValue::Str(def) }),
            ),
            ({
                let i = first_named(old(self).parsed_view(), name@);
                &&& i < 0 ==> final(self).parsed_view() == old(self).parsed_view() && (r matches Ok(s) && s@ == def@)
                &&& i >= 0 ==> final(self).parsed_view() == old(self).parsed_view().remove(i)
                &&& i >= 0 && old(self).parsed_view()[i].1 is Some
                    ==> (r matches Ok(s) && old(self).parsed_view()[i].1 == Some(s@))
                &&& i >= 0 && old(self).parsed_view()[i].1 is None ==> (r matches Err(FlagError::ExpectsValue))
            }),
    {
        self.defined.push(FlagDef { name, desc, def_val: FlagValue::Str(def) });
        proof {
            lemma_first_named_bounds(self.parsed_view(), name@);
        }
        match self.find(name) {
            Some(i) => {
                let ghost before = self.parsed@;
                let flag = self.parsed.remove(i);
                assert(self.parsed_view() =~= old(self).parsed_view().remove(i as int));
                assert(old(self).parsed_view()[i as int] == flag_view(&before[i as int]));
                match flag.value {
                    Some(v) => Ok(v),
                    None => Err(FlagError::ExpectsValue),
                }
            },
            None => Ok(def.to_owned()),
        }
    }

    /// Succeeds when every parsed flag has been taken by a definition;
    /// otherwise returns the names of those left, in order.
    pub fn check(&self) -> (r: Result<(), Vec<String>>)
        ensures
            r is Ok <==> self.parsed_view().len() == 0,
            r matches Err(names) ==> names@.len() == self.parsed_view().len()
                && forall|j: int| 0 <= j < names@.len() ==> (#[trigger] names@[j])@ == self.parsed_view()[j].0,
    {
        if self.parsed.len() == 0 {
            return Ok(());
        }
        let mut names: Vec<String> = Vec::new();
        let n = self.parsed.len();
        let mut i: usize = 0;
        while i < n
            invariant
                n == self.parsed@.len(),
                i <= n,
                names@.len() == i,
                forall|j: int| 0 <= j < i ==> (#[trigger] names@[j])@ == self.parsed_view()[j].0,
            decreases n - i,
        {
            assert(self.parsed_view()[i as int] == flag_view(&self.parsed@[i as int]));
            names.push(self.parsed[i].name.clone());
            i = i + 1;
        }
        Err(names)
    }

    /// The flags defined so far, for the help text.
    pub fn defined(&self) -> (r: &Vec<FlagDef>)
        ensures
            r@ == self.defined_view(),
    {
        &self.defined
    }
}

} // verus!
