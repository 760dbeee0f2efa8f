//! The command-line grammar: raw arguments are trimmed, grouped into
//! `--flag [value]` runs and folded into an [`Args`] record.

use vstd::prelude::*;
use vstd::string::*;
use crate::text::{
    is_flag,
    is_flag_text,
    parse_count,
    parsed_count,
    same_text,
    strip_dashes,
    trim,
    trimmed,
    without_dashes,
};

verus! {

#[derive(Debug, PartialEq, Eq)]
pub struct Args {
    pub title: String,
    pub artist: String,
    pub url: Option<String>,
    pub list: bool,
    pub max_results: Option<usize>,
    pub help: bool,
}

#[derive(Debug, PartialEq, Eq, PartialOrd, Ord)]
pub enum InvalidArgsError {
    MissingArgument,
    Unknown(String),
    MissingValue(String),
    InvalidValue((String, String)),
}

/// What an [`Args`] holds, over character sequences.
pub struct ArgsModel {
    pub title: Seq<char>,
    pub artist: Seq<char>,
    pub url: Option<Seq<char>>,
    pub list: bool,
    pub max_results: Option<usize>,
    pub help: bool,
}

/// What an [`InvalidArgsError`] holds, over character sequences.
pub enum ArgsFault {
    MissingArgument,
    Unknown(Seq<char>),
    MissingValue(Seq<char>),
    InvalidValue(Seq<char>, Seq<char>),
}

pub open spec fn opt_view(o: Option<String>) -> Option<Seq<char>> {
    match o {
        Some(s) => Some(s@),
        None => None,
    }
}

pub open spec fn views(s: Seq<String>) -> Seq<Seq<char>> {
    s.map_values(|x: String| x@)
}

impl View for Args {
    type V = ArgsModel;

    open spec fn view(&self) -> ArgsModel {
        ArgsModel {
            title: self.title@,
            artist: self.artist@,
            url: opt_view(self.url),
            list: self.list,
            max_results: self.max_results,
            help: self.help,
        }
    }
}

impl View for InvalidArgsError {
    type V = ArgsFault;

    open spec fn view(&self) -> ArgsFault {
        match self {
            InvalidArgsError::MissingArgument => ArgsFault::MissingArgument,
            InvalidArgsError::Unknown(a) => ArgsFault::Unknown(a@),
            InvalidArgsError::MissingValue(a) => ArgsFault::MissingValue(a@),
            InvalidArgsError::InvalidValue((a, v)) => ArgsFault::InvalidValue(a@, v@),
        }
    }
}

pub open spec fn result_view(r: Result<Args, InvalidArgsError>) -> Result<ArgsModel, ArgsFault> {
    match r {
        Ok(a) => Ok(a@),
        Err(e) => Err(e@),
    }
}

/// The record before any argument is read.
pub open spec fn empty_args() -> ArgsModel {
    ArgsModel {
        title: Seq::empty(),
        artist: Seq::empty(),
        url: None,
        list: false,
        max_results: None,
        help: false,
    }
}

/// The arguments without the program name, each trimmed, the empty ones dropped.
pub open spec fn kept(s: Seq<Seq<char>>) -> Seq<Seq<char>>
    decreases s.len(),
{
    if s.len() == 0 {
        Seq::empty()
    } else {
        let rest = kept(s.drop_last());
        if trimmed(s.last()).len() > 0 {
            rest.push(trimmed(s.last()))
        } else {
            rest
        }
    }
}

pub open spec fn sanitized(raw: Seq<Seq<char>>) -> Seq<Seq<char>> {
    if raw.len() == 0 {
        Seq::empty()
    } else {
        kept(raw.skip(1))
    }
}

/// Splits tokens into groups: a flag takes the token after it as its value
/// when that token is no flag; every other token stands alone.
pub open spec fn groups(s: Seq<Seq<char>>) -> Seq<Seq<Seq<char>>>
    decreases s.len(),
{
    if s.len() == 0 {
        Seq::empty()
    } else if s.len() >= 2 && is_flag(s[0]) && !is_flag(s[1]) {
        seq![s.take(2)] + groups(s.skip(2))
    } else {
        seq![s.take(1)] + groups(s.skip(1))
    }
}

/// A group of one token: a switch.
pub open spec fn apply_flag(a: ArgsModel, flag: Seq<char>) -> Result<ArgsModel, ArgsFault> {
    let name = without_dashes(flag);
    if name == "list"@ {
        Ok(ArgsModel { list: true, ..a })
    } else if name == "help"@ {
        Ok(ArgsModel { help: true, ..a })
    } else if name == "title"@ || name == "artist"@ || name == "url"@ {
        Err(ArgsFault::MissingValue(flag))
    } else {
        Err(ArgsFault::Unknown(flag))
    }
}

/// A group of a flag and its value.
pub open spec fn apply_pair(a: ArgsModel, flag: Seq<char>, value: Seq<char>) -> Result<
    ArgsModel,
    ArgsFault,
> {
    let name = without_dashes(flag);
    if value.len() == 0 {
        Err(ArgsFault::MissingValue(flag))
    } else if name == "title"@ {
        Ok(ArgsModel { title: value, ..a })
    } else if name == "artist"@ {
        Ok(ArgsModel { artist: value, ..a })
    } else if name == "url"@ {
        Ok(ArgsModel { url: Some(value), ..a })
    } else if name == "list"@ {
        match parsed_count(value) {
            Some(n) => Ok(ArgsModel { list: true, max_results: Some(n), ..a }),
            None => Err(ArgsFault::InvalidValue(name, value)),
        }
    } else {
        Err(ArgsFault::Unknown(name))
    }
}

pub open spec fn apply_group(a: ArgsModel, g: Seq<Seq<char>>) -> Result<ArgsModel, ArgsFault> {
    if g.len() == 1 {
        apply_flag(a, g[0])
    } else if g.len() == 2 {
        apply_pair(a, g[0], g[1])
    } else if g.len() > 2 {
        Err(ArgsFault::MissingValue(g[0]))
    } else {
        Err(ArgsFault::MissingArgument)
    }
}

/// Reads the groups in order and stops at the first one that is refused.
pub open spec fn apply_groups(a: ArgsModel, gs: Seq<Seq<Seq<char>>>) -> Result<
    ArgsModel,
    ArgsFault,
>
    decreases gs.len(),
{
    if gs.len() == 0 {
        Ok(a)
    } else {
        match apply_group(a, gs[0]) {
            Ok(b) => apply_groups(b, gs.skip(1)),
            Err(e) => Err(e),
        }
    }
}

/// Whether a record names something to look up: a title, or a non-empty url.
pub open spec fn names_target(a: ArgsModel) -> bool {
    a.title.len() > 0 || (a.url is Some && a.url->Some_0.len() > 0)
}

/// The outcome of parsing the raw arguments, program name first.
pub open spec fn parsed_args(raw: Seq<Seq<char>>) -> Result<ArgsModel, ArgsFault> {
    let gs = groups(sanitized(raw));
    if gs.len() == 0 {
        Err(ArgsFault::MissingArgument)
    } else {
        match apply_groups(empty_args(), gs) {
            Ok(a) => if names_target(a) {
                Ok(a)
            } else {
                Err(ArgsFault::MissingArgument)
            },
            Err(e) => Err(e),
        }
    }
}

/// Whether nothing is left once the program name is dropped and the
/// arguments are trimmed: the case in which the help text is shown.
pub open spec fn blank_args(raw: Seq<Seq<char>>) -> bool {
    sanitized(raw).len() == 0
}

/// Drops the program name, trims every argument and drops the empty ones.
pub fn sanitize(args: &Vec<String>) -> (r: Vec<String>)
    ensures
        views(r@) == sanitized(views(args@)),
{
    let ghost raw = views(args@);
    let mut out: Vec<String> = Vec::new();
    let mut i: usize = 1;
    if args.len() == 0 {
        assert(views(out@) =~= Seq::<Seq<char>>::empty());
        return out;
    }
    assert(raw.skip(1).subrange(0, 0) =~= Seq::<Seq<char>>::empty());
    assert(views(out@) =~= Seq::<Seq<char>>::empty());
    while i < args.len()
        invariant
            1 <= i <= args.len(),
            raw == views(args@),
            views(out@) == kept(raw.skip(1).subrange(0, i - 1)),
        decreases args.len() - i,
    {
        let t = trim(args[i].as_str());
        let ghost prev = raw.skip(1).subrange(0, i - 1);
        let ghost next = raw.skip(1).subrange(0, i as int);
        assert(next.drop_last() =~= prev);
        assert(next.last() == args@[i as int]@);
        if t.unicode_len() > 0 {
            let ghost before = views(out@);
            out.push(t.to_string());
            assert(views(out@) =~= before.push(t@));
        }
        i += 1;
    }
    assert(raw.skip(1).subrange(0, args.len() - 1) =~= raw.skip(1));
    out
}

/// Splits sanitized tokens into `--flag [value]` groups.
pub fn split_groups(tokens: &Vec<String>) -> (r: Vec<Vec<String>>)
    ensures
        r@.map_values(|g: Vec<String>| views(g@)) == groups(views(tokens@)),
{
    let ghost s = views(tokens@);
    let n = tokens.len();
    let mut out: Vec<Vec<String>> = Vec::new();
    let mut i: usize = 0;
    assert(s.skip(0) =~= s);
    while i < n
        invariant
            i <= n,
            n == tokens@.len(),
            s == views(tokens@),
            groups(s) == out@.map_values(|g: Vec<String>| views(g@)) + groups(s.skip(i as int)),
        decreases n - i,
    {
        let ghost before = out@.map_values(|g: Vec<String>| views(g@));
        let ghost rest = s.skip(i as int);
        if i + 1 < n && is_flag_text(tokens[i].as_str()) && !is_flag_text(
            tokens[i + 1].as_str(),
        ) {
            let mut g: Vec<String> = Vec::new();
            g.push(tokens[i].clone());
            g.push(tokens[i + 1].clone());
            assert(views(g@) =~= rest.take(2));
            assert(rest.skip(2) =~= s.skip(i + 2));
            out.push(g);
            assert(out@.map_values(|g: Vec<String>| views(g@)) =~= before.push(rest.take(2)));
            assert(before.push(rest.take(2)) + groups(rest.skip(2)) =~= before + (seq![rest.take(2)]
                + groups(rest.skip(2))));
            i += 2;
        } else {
            let mut g: Vec<String> = Vec::new();
            g.push(tokens[i].clone());
            assert(views(g@) =~= rest.take(1));
            assert(rest.skip(1) =~= s.skip(i + 1));
            out.push(g);
            assert(out@.map_values(|g: Vec<String>| views(g@)) =~= before.push(rest.take(1)));
            assert(before.push(rest.take(1)) + groups(rest.skip(1)) =~= before + (seq![rest.take(1)]
                + groups(rest.skip(1))));
            i += 1;
        }
    }
    assert(groups(s.skip(n as int)) =~= Seq::<Seq<Seq<char>>>::empty());
    assert(out@.map_values(|g: Vec<String>| views(g@)) + Seq::<Seq<Seq<char>>>::empty()
        =~= out@.map_values(|g: Vec<String>| views(g@)));
    out
}

/// Whether `r` and the record left behind agree with `out`, the modelled
/// outcome of one step: a refused step leaves the record as it was.
pub open spec fn step_agrees(
    before: ArgsModel,
    after: ArgsModel,
    r: Result<(), InvalidArgsError>,
    out: Result<ArgsModel, ArgsFault>,
) -> bool {
    match (r, out) {
        (Ok(_), Ok(a)) => after == a,
        (Err(e), Err(f)) => e@ == f && after == before,
        _ => false,
    }
}

impl Args {
    fn new() -> (r: Self)
        ensures
            r@ == empty_args(),
    {
        Args {
            title: String::new(),
            artist: String::new(),
            url: None,
            list: false,
            max_results: None,
            help: false,
        }
    }

    /// Parses the process arguments, the program name first.
    pub fn parse(args: Vec<String>) -> (r: Result<Self, InvalidArgsError>)
        ensures
            result_view(r) == parsed_args(views(args@)),
    {
        let sanitized_args = sanitize(&args);
        let arg_slices = split_groups(&sanitized_args);
        let ghost gs = groups(sanitized(views(args@)));
        if arg_slices.len() == 0 {
            return Err(InvalidArgsError::MissingArgument);
        }
        let mut parsed = Self::new();
        let mut i: usize = 0;
        assert(gs.skip(0) =~= gs);
        while i < arg_slices.len()
            invariant
                i <= arg_slices.len(),
                gs == arg_slices@.map_values(|g: Vec<String>| views(g@)),
                gs == groups(sanitized(views(args@))),
                gs.len() > 0,
                apply_groups(empty_args(), gs) == apply_groups(parsed@, gs.skip(i as int)),
            decreases arg_slices.len() - i,
        {
            let ghost rest = gs.skip(i as int);
            assert(rest[0] == views(arg_slices@[i as int]@));
            assert(rest.skip(1) =~= gs.skip(i + 1));
            let ghost before = parsed@;
            match parsed.parse_arg_slice(arg_slices[i].as_slice()) {
                Ok(()) => {},
                Err(e) => {
                    assert(apply_groups(before, rest) == Err::<ArgsModel, ArgsFault>(e@));
                    return Err(e);
                },
            }
            i += 1;
        }
        assert(gs.skip(i as int) =~= Seq::<Seq<Seq<char>>>::empty());
        let has_url = match &parsed.url {
            Some(u) => u.unicode_len() > 0,
            None => false,
        };
        if parsed.title.unicode_len() == 0 && !has_url {
            return Err(InvalidArgsError::MissingArgument);
        }
        Ok(parsed)
    }

    fn parse_arg_slice(&mut self, arg_pair: &[String]) -> (r: Result<(), InvalidArgsError>)
        ensures
            step_agrees(old(self)@, final(self)@, r, apply_group(old(self)@, views(arg_pair@))),
    {
        if arg_pair.len() == 1 {
            self.parse_flag_arg(arg_pair[0].as_str())
        } else if arg_pair.len() == 2 {
            self.parse_arg_pair((arg_pair[0].as_str(), arg_pair[1].as_str()))
        } else if arg_pair.len() > 2 {
            Err(InvalidArgsError::MissingValue(arg_pair[0].clone()))
        } else {
            Err(InvalidArgsError::MissingArgument)
        }
    }

    fn parse_flag_arg(&mut self, flag: &str) -> (r: Result<(), InvalidArgsError>)
        ensures
            step_agrees(old(self)@, final(self)@, r, apply_flag(old(self)@, flag@)),
    {
        let name = strip_dashes(flag);
        if same_text(name, "list") {
            self.list = true;
        } else if same_text(name, "help") {
            self.help = true;
        } else if same_text(name, "title") || same_text(name, "artist") || same_text(name, "url") {
            return Err(InvalidArgsError::MissingValue(flag.to_string()));
        } else {
            return Err(InvalidArgsError::Unknown(flag.to_string()));
        }
        Ok(())
    }

    fn parse_arg_pair(&mut self, pair: (&str, &str)) -> (r: Result<(), InvalidArgsError>)
        ensures
            step_agrees(old(self)@, final(self)@, r, apply_pair(old(self)@, pair.0@, pair.1@)),
    {
        let (arg, val) = pair;
        let name = strip_dashes(arg);
        if val.unicode_len() == 0 {
            return Err(InvalidArgsError::MissingValue(arg.to_string()));
        }
        if same_text(name, "title") {
            self.title = val.to_string();
        } else if same_text(name, "artist") {
            self.artist = val.to_string();
        } else if same_text(name, "url") {
            self.url = Some(val.to_string());
        } else if same_text(name, "list") {
            match parse_count(val) {
                Some(max) => {
                    self.list = true;
                    self.max_results = Some(max);
                },
                None => {
                    return Err(InvalidArgsError::InvalidValue((name.to_string(), val.to_string())));
                },
            }
        } else {
            return Err(InvalidArgsError::Unknown(name.to_string()));
        }
        Ok(())
    }
}

impl InvalidArgsError {
    /// The text shown to the user.
    pub fn message(&self) -> (r: String)
        ensures
            match self {
                InvalidArgsError::MissingArgument => r@
                    == "At least one of `--title` or `--url` arguments is required"@,
                InvalidArgsError::Unknown(a) => r@ == "Argument `"@ + a@ + "` unknown"@,
                InvalidArgsError::MissingValue(a) => r@ == "Argument `"@ + a@
                    + "` requires a value"@,
                InvalidArgsError::InvalidValue((a, v)) => r@ == "Argument `"@ + a@
                    + "` has invalid value "@ + v@,
            },
    {
        match self {
            InvalidArgsError::MissingArgument => String::from_str(
                "At least one of `--title` or `--url` arguments is required",
            ),
            InvalidArgsError::Unknown(a) => String::from_str("Argument `").concat(a.as_str()).concat(
                "` unknown",
            ),
            InvalidArgsError::MissingValue(a) => String::from_str("Argument `").concat(
                a.as_str(),
            ).concat("` requires a value"),
            InvalidArgsError::InvalidValue((a, v)) => String::from_str("Argument `").concat(
                a.as_str(),
            ).concat("` has invalid value ").concat(v.as_str()),
        }
    }
}

/// Whether no argument is left once the program name is dropped and the
/// others are trimmed: then the help text is shown, and [`Args::parse`]
/// fails with `MissingArgument`.
pub fn is_blank(args: &Vec<String>) -> (r: bool)
    ensures
        r == blank_args(views(args@)),
{
    let kept = sanitize(args);
    kept.len() == 0
}

/// A token that, stripped of its dashes, names neither `title` nor `url`.
pub open spec fn names_no_target(t: Seq<char>) -> bool {
    without_dashes(t) != "title"@ && without_dashes(t) != "url"@
}

proof fn lemma_kept_prepend(a: Seq<char>, s: Seq<Seq<char>>)
    ensures
        kept(seq![a] + s) == if trimmed(a).len() > 0 {
            seq![trimmed(a)] + kept(s)
        } else {
            kept(s)
        },
    decreases s.len(),
{
    if s.len() == 0 {
        assert((seq![a] + s).drop_last() =~= Seq::<Seq<char>>::empty());
        assert(seq![a] + s =~= seq![a]);
        assert(kept(Seq::<Seq<char>>::empty()) =~= Seq::<Seq<char>>::empty());
        assert(Seq::<Seq<char>>::empty().push(trimmed(a)) =~= seq![trimmed(a)] + Seq::<
            Seq<char>,
        >::empty());
    } else {
        lemma_kept_prepend(a, s.drop_last());
        assert((seq![a] + s).drop_last() =~= seq![a] + s.drop_last());
        assert((seq![a] + s).last() == s.last());
        if trimmed(a).len() > 0 {
            assert((seq![trimmed(a)] + kept(s.drop_last())).push(trimmed(s.last())) =~= seq![
                trimmed(a),
            ] + kept(s.drop_last()).push(trimmed(s.last())));
        }
    }
}

proof fn lemma_kept_tokens(s: Seq<Seq<char>>)
    requires
        forall|k: int| 0 <= k < s.len() ==> names_no_target(trimmed(#[trigger] s[k])),
    ensures
        forall|j: int| 0 <= j < kept(s).len() ==> names_no_target(#[trigger] kept(s)[j]),
    decreases s.len(),
{
    if s.len() > 0 {
        let init = s.drop_last();
        assert forall|k: int| 0 <= k < init.len() implies names_no_target(
            trimmed(#[trigger] init[k]),
        ) by {
            assert(init[k] == s[k]);
        }
        lemma_kept_tokens(init);
        assert(names_no_target(trimmed(s[s.len() - 1])));
        assert forall|j: int| 0 <= j < kept(s).len() implies names_no_target(
            #[trigger] kept(s)[j],
        ) by {
            if j < kept(init).len() {
                assert(kept(s)[j] == kept(init)[j]);
            }
        }
    }
}

proof fn lemma_group_tokens(s: Seq<Seq<char>>)
    requires
        forall|k: int| 0 <= k < s.len() ==> names_no_target(#[trigger] s[k]),
    ensures
        forall|j: int|
            0 <= j < groups(s).len() ==> 1 <= (#[trigger] groups(s)[j]).len() <= 2
                && names_no_target(groups(s)[j][0]),
    decreases s.len(),
{
    if s.len() > 0 {
        assert(names_no_target(s[0]));
        let n: int = if s.len() >= 2 && is_flag(s[0]) && !is_flag(s[1]) {
            2
        } else {
            1
        };
        let rest = s.skip(n);
        assert forall|k: int| 0 <= k < rest.len() implies names_no_target(#[trigger] rest[k]) by {
            assert(rest[k] == s[k + n]);
        }
        lemma_group_tokens(rest);
        assert(groups(s) == seq![s.take(n)] + groups(rest));
        assert(s.take(n)[0] == s[0]);
        assert forall|j: int| 0 <= j < groups(s).len() implies 1 <= (
        #[trigger] groups(s)[j]).len() <= 2 && names_no_target(groups(s)[j][0]) by {
            if j > 0 {
                assert(groups(s)[j] == groups(rest)[j - 1]);
            }
        }
    }
}

proof fn lemma_groups_keep_target(a: ArgsModel, gs: Seq<Seq<Seq<char>>>)
    requires
        a.title.len() == 0,
        a.url is None,
        forall|j: int|
            0 <= j < gs.len() ==> 1 <= (#[trigger] gs[j]).len() <= 2 && names_no_target(
                gs[j][0],
            ),
    ensures
        apply_groups(a, gs) matches Ok(b) ==> b.title.len() == 0 && b.url is None,
    decreases gs.len(),
{
    if gs.len() > 0 {
        assert(1 <= gs[0].len() <= 2 && names_no_target(gs[0][0]));
        match apply_group(a, gs[0]) {
            Ok(b) => {
                assert(b.title.len() == 0 && b.url is None);
                lemma_groups_keep_target(b, gs.skip(1));
            },
            Err(_) => {},
        }
    }
}

/// Arguments of which none names `title` or `url` never parse: where every
/// group is read without fault, the outcome is `MissingArgument`, and where
/// a group is refused, the outcome is that group's fault.
pub proof fn lemma_no_target_is_refused(raw: Seq<Seq<char>>)
    requires
        forall|k: int| 1 <= k < raw.len() ==> names_no_target(trimmed(#[trigger] raw[k])),
    ensures
        parsed_args(raw) is Err,
        apply_groups(empty_args(), groups(sanitized(raw))) is Ok ==> parsed_args(raw) == Err::<
            ArgsModel,
            ArgsFault,
        >(ArgsFault::MissingArgument),
{
    if raw.len() > 0 {
        assert forall|k: int| 0 <= k < raw.skip(1).len() implies names_no_target(
            trimmed(#[trigger] raw.skip(1)[k]),
        ) by {
            assert(raw.skip(1)[k] == raw[k + 1]);
        }
        lemma_kept_tokens(raw.skip(1));
    }
    lemma_group_tokens(sanitized(raw));
    lemma_groups_keep_target(empty_args(), groups(sanitized(raw)));
}

/// Arguments that are empty once trimmed fail with `MissingArgument`; these
/// are the arguments for which [`is_blank`] says to show the help text.
pub proof fn lemma_blank_is_missing_argument(raw: Seq<Seq<char>>)
    requires
        blank_args(raw),
    ensures
        parsed_args(raw) == Err::<ArgsModel, ArgsFault>(ArgsFault::MissingArgument),
{
    assert(groups(sanitized(raw)) =~= Seq::<Seq<Seq<char>>>::empty());
}

/// The first two tokens left after the program name, when both are kept.
proof fn lemma_first_tokens(raw: Seq<Seq<char>>)
    requires
        raw.len() >= 2,
        trimmed(raw[1]).len() > 0,
    ensures
        sanitized(raw) == seq![trimmed(raw[1])] + kept(raw.skip(2)),
        raw.len() == 2 ==> sanitized(raw) == seq![trimmed(raw[1])],
        raw.len() >= 3 && trimmed(raw[2]).len() > 0 ==> kept(raw.skip(2)) == seq![trimmed(raw[2])]
            + kept(raw.skip(3)),
{
    assert(raw.skip(1) =~= seq![raw[1]] + raw.skip(2));
    lemma_kept_prepend(raw[1], raw.skip(2));
    if raw.len() == 2 {
        assert(raw.skip(2) =~= Seq::<Seq<char>>::empty());
        assert(kept(raw.skip(2)) =~= Seq::<Seq<char>>::empty());
        assert(seq![trimmed(raw[1])] + Seq::<Seq<char>>::empty() =~= seq![trimmed(raw[1])]);
    }
    if raw.len() >= 3 {
        assert(raw.skip(2) =~= seq![raw[2]] + raw.skip(3));
        lemma_kept_prepend(raw[2], raw.skip(3));
    }
}

/// A `--title`, `--artist` or `--url` flag given first and followed by no
/// value (by nothing, or by another flag) fails with `MissingValue` of
/// that flag.
pub proof fn lemma_flag_without_value(raw: Seq<Seq<char>>)
    requires
        raw.len() >= 2,
        is_flag(trimmed(raw[1])),
        without_dashes(trimmed(raw[1])) == "title"@ || without_dashes(trimmed(raw[1])) == "artist"@
            || without_dashes(trimmed(raw[1])) == "url"@,
        raw.len() == 2 || is_flag(trimmed(raw[2])),
    ensures
        parsed_args(raw) == Err::<ArgsModel, ArgsFault>(ArgsFault::MissingValue(trimmed(raw[1]))),
{
    reveal_strlit("list");
    reveal_strlit("help");
    reveal_strlit("title");
    reveal_strlit("artist");
    reveal_strlit("url");
    assert("list"@.len() == 4 && "help"@.len() == 4 && "title"@.len() == 5 && "artist"@.len() == 6
        && "url"@.len() == 3);
    lemma_first_tokens(raw);
    let s = sanitized(raw);
    if raw.len() > 2 {
        assert(s[1] == trimmed(raw[2]));
    }
    assert(s.take(1) =~= seq![trimmed(raw[1])]);
    assert(groups(s) == seq![s.take(1)] + groups(s.skip(1)));
    assert(groups(s)[0] == s.take(1));
}

/// A first `--list` flag whose value is no unsigned number fails with
/// `InvalidValue` of `list` and that value.
pub proof fn lemma_list_invalid_value(raw: Seq<Seq<char>>)
    requires
        raw.len() >= 3,
        is_flag(trimmed(raw[1])),
        without_dashes(trimmed(raw[1])) == "list"@,
        trimmed(raw[2]).len() > 0,
        !is_flag(trimmed(raw[2])),
        parsed_count(trimmed(raw[2])) is None,
    ensures
        parsed_args(raw) == Err::<ArgsModel, ArgsFault>(
            ArgsFault::InvalidValue("list"@, trimmed(raw[2])),
        ),
{
    reveal_strlit("list");
    reveal_strlit("help");
    reveal_strlit("title");
    reveal_strlit("artist");
    reveal_strlit("url");
    assert("list"@.len() == 4 && "help"@.len() == 4 && "title"@.len() == 5 && "artist"@.len() == 6
        && "url"@.len() == 3);
    lemma_first_tokens(raw);
    let s = sanitized(raw);
    assert(s[1] == trimmed(raw[2]));
    assert(s.take(2) =~= seq![trimmed(raw[1]), trimmed(raw[2])]);
    assert(groups(s) == seq![s.take(2)] + groups(s.skip(2)));
    assert(groups(s)[0] == s.take(2));
}

} // verus!
