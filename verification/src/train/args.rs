//! The training command line.
//!
//! Options that hold a decimal fraction are kept as text; whether a word reads
//! as such a fraction is told from outside.

use vstd::prelude::*;
use crate::model::{size_of_tag, size_tag, ModelSize};
use crate::text::{lower, parse_unsigned, parse_usize, same, trimmed, unsigned_value};

verus! {

/// What is trained.
#[derive(Debug, Clone, Copy, PartialEq, Eq, Structural)]
pub enum TrainStrategy {
    Pairwise,
    Batch,
    Align,
    FusionAlign,
}

/// The name of a strategy on the command line.
pub open spec fn strategy_name(s: TrainStrategy) -> Seq<char> {
    match s {
        TrainStrategy::Pairwise => "pairwise"@,
        TrainStrategy::Batch => "batch"@,
        TrainStrategy::Align => "align"@,
        TrainStrategy::FusionAlign => "fusion-align"@,
    }
}

/// The stem that a strategy's checkpoints start with.
pub open spec fn strategy_stem(s: TrainStrategy) -> Seq<char> {
    match s {
        TrainStrategy::Pairwise => "focusmerge"@,
        TrainStrategy::Batch => "batchmerge"@,
        TrainStrategy::Align => "batchalign"@,
        TrainStrategy::FusionAlign => "fusionalign"@,
    }
}

/// The strategy of a name.
pub open spec fn strategy_named(name: Seq<char>) -> Option<TrainStrategy> {
    if name == "pairwise"@ {
        Some(TrainStrategy::Pairwise)
    } else if name == "batch"@ {
        Some(TrainStrategy::Batch)
    } else if name == "align"@ {
        Some(TrainStrategy::Align)
    } else if name == "fusion-align"@ {
        Some(TrainStrategy::FusionAlign)
    } else {
        None
    }
}

impl TrainStrategy {
    /// The strategy of a name, exactly as written.
    pub fn parse(s: &str) -> (r: Option<TrainStrategy>)
        ensures
            r == strategy_named(s@),
    {
        if same(s, "pairwise") {
            Some(TrainStrategy::Pairwise)
        } else if same(s, "batch") {
            Some(TrainStrategy::Batch)
        } else if same(s, "align") {
            Some(TrainStrategy::Align)
        } else if same(s, "fusion-align") {
            Some(TrainStrategy::FusionAlign)
        } else {
            None
        }
    }

    /// The name of the strategy.
    pub fn as_str(self) -> (r: &'static str)
        ensures
            r@ == strategy_name(self),
    {
        match self {
            TrainStrategy::Pairwise => "pairwise",
            TrainStrategy::Batch => "batch",
            TrainStrategy::Align => "align",
            TrainStrategy::FusionAlign => "fusion-align",
        }
    }

    /// The stem that the strategy's checkpoints start with.
    pub fn stem_prefix(self) -> (r: &'static str)
        ensures
            r@ == strategy_stem(self),
    {
        match self {
            TrainStrategy::Pairwise => "focusmerge",
            TrainStrategy::Batch => "batchmerge",
            TrainStrategy::Align => "batchalign",
            TrainStrategy::FusionAlign => "fusionalign",
        }
    }
}

/// Parsing a strategy's name gives the strategy back.
pub proof fn law_strategy_round_trip(s: TrainStrategy)
    ensures
        strategy_named(strategy_name(s)) == Some(s),
{
    reveal_strlit("pairwise");
    reveal_strlit("batch");
    reveal_strlit("align");
    reveal_strlit("fusion-align");
    assert("pairwise"@.len() == 8 && "batch"@.len() == 5 && "align"@.len() == 5
        && "fusion-align"@.len() == 12);
    assert("batch"@[0] == 'b' && "align"@[0] == 'a');
}

/// Two strategies never share a checkpoint stem.
pub proof fn law_stems_differ(a: TrainStrategy, b: TrainStrategy)
    requires
        a != b,
    ensures
        strategy_stem(a) != strategy_stem(b),
{
    reveal_strlit("focusmerge");
    reveal_strlit("batchmerge");
    reveal_strlit("batchalign");
    reveal_strlit("fusionalign");
    assert("focusmerge"@[0] == 'f' && "focusmerge"@[1] == 'o');
    assert("fusionalign"@[0] == 'f' && "fusionalign"@[1] == 'u');
    assert("batchmerge"@[0] == 'b' && "batchmerge"@[5] == 'm');
    assert("batchalign"@[0] == 'b' && "batchalign"@[5] == 'a');
}

/// The options as they stand while the command line is read. `S` is the type
/// of texts.
#[derive(Debug)]
pub struct Settings<S> {
    pub data: Option<S>,
    pub out: S,
    pub size: ModelSize,
    pub strategy: TrainStrategy,
    pub epochs: usize,
    pub lr: S,
    pub crop: usize,
    pub seed: u64,
    pub ss_max: S,
    pub ckpt_every: usize,
    pub resume: bool,
    pub corr_radius: Option<usize>,
    pub real_data: Option<S>,
    pub photometric_weight: S,
}

/// What is wrong with a command line. `S` is the type of texts.
#[derive(Debug, PartialEq, Eq)]
pub enum ArgError<S> {
    /// A flag stands last that takes a value.
    MissingValue { flag: S },
    /// No preset has this tag.
    InvalidSize { value: S },
    /// No strategy has this name.
    InvalidStrategy { value: S },
    /// The flag takes a whole number, and this is none that fits.
    InvalidInteger { flag: S, value: S },
    /// The flag takes a number, and this is none.
    InvalidFloat { flag: S, value: S },
    /// No flag has this name.
    UnknownArgument { flag: S },
    /// The data directory is missing.
    DataRequired,
}

/// The result of reading a command line. `S` is the type of texts.
#[derive(Debug)]
pub enum Parsed<S> {
    /// Help was asked for.
    Help,
    /// These options were given.
    Run(Settings<S>),
    /// The command line is wrong.
    Wrong(ArgError<S>),
}

/// The text of an optional string.
pub open spec fn opt_view(s: Option<String>) -> Option<Seq<char>> {
    match s {
        Some(t) => Some(t@),
        None => None,
    }
}

impl View for Settings<String> {
    type V = Settings<Seq<char>>;

    open spec fn view(&self) -> Settings<Seq<char>> {
        Settings {
            data: opt_view(self.data),
            out: self.out@,
            size: self.size,
            strategy: self.strategy,
            epochs: self.epochs,
            lr: self.lr@,
            crop: self.crop,
            seed: self.seed,
            ss_max: self.ss_max@,
            ckpt_every: self.ckpt_every,
            resume: self.resume,
            corr_radius: self.corr_radius,
            real_data: opt_view(self.real_data),
            photometric_weight: self.photometric_weight@,
        }
    }
}

impl View for ArgError<String> {
    type V = ArgError<Seq<char>>;

    open spec fn view(&self) -> ArgError<Seq<char>> {
        match *self {
            ArgError::MissingValue { flag } => ArgError::MissingValue { flag: flag@ },
            ArgError::InvalidSize { value } => ArgError::InvalidSize { value: value@ },
            ArgError::InvalidStrategy { value } => ArgError::InvalidStrategy { value: value@ },
            ArgError::InvalidInteger { flag, value } => ArgError::InvalidInteger {
                flag: flag@,
                value: value@,
            },
            ArgError::InvalidFloat { flag, value } => ArgError::InvalidFloat {
                flag: flag@,
                value: value@,
            },
            ArgError::UnknownArgument { flag } => ArgError::UnknownArgument { flag: flag@ },
            ArgError::DataRequired => ArgError::DataRequired,
        }
    }
}

impl View for Parsed<String> {
    type V = Parsed<Seq<char>>;

    open spec fn view(&self) -> Parsed<Seq<char>> {
        match *self {
            Parsed::Help => Parsed::Help,
            Parsed::Run(s) => Parsed::Run(s@),
            Parsed::Wrong(e) => Parsed::Wrong(e@),
        }
    }
}

/// The options before anything is read.
pub open spec fn default_settings() -> Settings<Seq<char>> {
    Settings {
        data: None,
        out: "checkpoints"@,
        size: ModelSize::M,
        strategy: TrainStrategy::Pairwise,
        epochs: 40,
        lr: "3e-4"@,
        crop: 256,
        seed: 42,
        ss_max: "0.5"@,
        ckpt_every: 200,
        resume: false,
        corr_radius: None,
        real_data: None,
        photometric_weight: "0.1"@,
    }
}

/// The whole number that a text reads as, if it fits in `usize`.
pub open spec fn usize_of(value: Seq<char>) -> Option<usize> {
    match unsigned_value(value, usize::MAX as nat) {
        Some(v) => Some(v as usize),
        None => None,
    }
}

/// The whole number that a text reads as, if it fits in `u64`.
pub open spec fn u64_of(value: Seq<char>) -> Option<u64> {
    match unsigned_value(value, u64::MAX as nat) {
        Some(v) => Some(v as u64),
        None => None,
    }
}

/// Whether a flag takes a value.
pub open spec fn takes_value(flag: Seq<char>) -> bool {
    ||| flag == "--data"@
    ||| flag == "--out"@
    ||| flag == "--size"@
    ||| flag == "--strategy"@
    ||| flag == "--epochs"@
    ||| flag == "--lr"@
    ||| flag == "--crop"@
    ||| flag == "--seed"@
    ||| flag == "--ss-max"@
    ||| flag == "--ckpt-every"@
    ||| flag == "--corr-radius"@
    ||| flag == "--real-data"@
    ||| flag == "--photometric-weight"@
}

/// The options after a flag that takes a value, or what is wrong with it.
/// `fraction` says whether the value reads as a decimal fraction.
pub open spec fn applied(
    s: Settings<Seq<char>>,
    flag: Seq<char>,
    value: Seq<char>,
    fraction: bool,
) -> Result<Settings<Seq<char>>, ArgError<Seq<char>>> {
    if flag == "--data"@ {
        Ok(Settings { data: Some(value), ..s })
    } else if flag == "--out"@ {
        Ok(Settings { out: value, ..s })
    } else if flag == "--size"@ {
        match size_of_tag(lower(trimmed(value))) {
            Some(size) => Ok(Settings { size, ..s }),
            None => Err(ArgError::InvalidSize { value }),
        }
    } else if flag == "--strategy"@ {
        match strategy_named(value) {
            Some(strategy) => Ok(Settings { strategy, ..s }),
            None => Err(ArgError::InvalidStrategy { value }),
        }
    } else if flag == "--epochs"@ {
        match usize_of(value) {
            Some(epochs) => Ok(Settings { epochs, ..s }),
            None => Err(ArgError::InvalidInteger { flag, value }),
        }
    } else if flag == "--lr"@ {
        if fraction {
            Ok(Settings { lr: value, ..s })
        } else {
            Err(ArgError::InvalidFloat { flag, value })
        }
    } else if flag == "--crop"@ {
        match usize_of(value) {
            Some(crop) => Ok(Settings { crop, ..s }),
            None => Err(ArgError::InvalidInteger { flag, value }),
        }
    } else if flag == "--seed"@ {
        match u64_of(value) {
            Some(seed) => Ok(Settings { seed, ..s }),
            None => Err(ArgError::InvalidInteger { flag, value }),
        }
    } else if flag == "--ss-max"@ {
        if fraction {
            Ok(Settings { ss_max: value, ..s })
        } else {
            Err(ArgError::InvalidFloat { flag, value })
        }
    } else if flag == "--ckpt-every"@ {
        match usize_of(value) {
            Some(ckpt_every) => Ok(Settings { ckpt_every, ..s }),
            None => Err(ArgError::InvalidInteger { flag, value }),
        }
    } else if flag == "--corr-radius"@ {
        match usize_of(value) {
            Some(radius) => Ok(Settings { corr_radius: Some(radius), ..s }),
            None => Err(ArgError::InvalidInteger { flag, value }),
        }
    } else if flag == "--real-data"@ {
        Ok(Settings { real_data: Some(value), ..s })
    } else if fraction {
        Ok(Settings { photometric_weight: value, ..s })
    } else {
        Err(ArgError::InvalidFloat { flag, value })
    }
}

/// The words of a command line.
pub open spec fn words(argv: Seq<String>) -> Seq<Seq<char>> {
    Seq::new(argv.len(), |i: int| argv[i]@)
}

/// The options once everything is read: the data directory has to be given,
/// and checkpoints are at least one step apart.
pub open spec fn completed(s: Settings<Seq<char>>) -> Parsed<Seq<char>> {
    if s.data is None {
        Parsed::Wrong(ArgError::DataRequired)
    } else {
        Parsed::Run(
            Settings {
                ckpt_every: if s.ckpt_every == 0 {
                    1
                } else {
                    s.ckpt_every
                },
                ..s
            },
        )
    }
}

/// The result of reading a command line from word `i` on, with the options as
/// they stand. The first wrong word and the first request for help end it; a
/// later flag overrides an earlier one.
pub open spec fn parsed_from(
    argv: Seq<Seq<char>>,
    fractions: Seq<bool>,
    i: int,
    s: Settings<Seq<char>>,
) -> Parsed<Seq<char>>
    decreases argv.len() - i,
{
    if i >= argv.len() {
        completed(s)
    } else if argv[i] == "--resume"@ {
        parsed_from(argv, fractions, i + 1, Settings { resume: true, ..s })
    } else if argv[i] == "-h"@ || argv[i] == "--help"@ {
        Parsed::Help
    } else if !takes_value(argv[i]) {
        Parsed::Wrong(ArgError::UnknownArgument { flag: argv[i] })
    } else if i + 1 >= argv.len() {
        Parsed::Wrong(ArgError::MissingValue { flag: argv[i] })
    } else {
        match applied(s, argv[i], argv[i + 1], fractions[i + 1]) {
            Ok(next) => parsed_from(argv, fractions, i + 2, next),
            Err(e) => Parsed::Wrong(e),
        }
    }
}

/// The word that follows position `i`: the value of `flag`, whatever it reads
/// like.
pub fn value_after(argv: &Vec<String>, i: usize, flag: &str) -> (r: Result<
    String,
    ArgError<String>,
>)
    ensures
        match r {
            Ok(v) => i + 1 < argv@.len() && v@ == argv@[i + 1]@,
            Err(e) => i + 1 >= argv@.len() && e@ == (ArgError::MissingValue { flag: flag@ }),
        },
{
    if i < argv.len() && argv.len() - i > 1 {
        Ok(argv[i + 1].clone())
    } else {
        Err(ArgError::MissingValue { flag: flag.to_owned() })
    }
}

fn flag_takes_value(flag: &str) -> (r: bool)
    ensures
        r == takes_value(flag@),
{
    same(flag, "--data") || same(flag, "--out") || same(flag, "--size") || same(flag, "--strategy")
        || same(flag, "--epochs") || same(flag, "--lr") || same(flag, "--crop") || same(
        flag,
        "--seed",
    ) || same(flag, "--ss-max") || same(flag, "--ckpt-every") || same(flag, "--corr-radius")
        || same(flag, "--real-data") || same(flag, "--photometric-weight")
}

fn read_usize(flag: &String, value: String) -> (r: Result<usize, ArgError<String>>)
    ensures
        match r {
            Ok(v) => usize_of(value@) == Some(v),
            Err(e) => usize_of(value@) is None && e@ == (ArgError::InvalidInteger {
                flag: flag@,
                value: value@,
            }),
        },
{
    match parse_usize(value.as_str()) {
        Some(v) => Ok(v),
        None => Err(ArgError::InvalidInteger { flag: flag.clone(), value }),
    }
}

fn read_fraction(flag: &String, value: String, fraction: bool) -> (r: Result<
    String,
    ArgError<String>,
>)
    ensures
        match r {
            Ok(v) => fraction && v@ == value@,
            Err(e) => !fraction && e@ == (ArgError::InvalidFloat { flag: flag@, value: value@ }),
        },
{
    if fraction {
        Ok(value)
    } else {
        Err(ArgError::InvalidFloat { flag: flag.clone(), value })
    }
}

fn apply(s: Settings<String>, flag: &String, value: String, fraction: bool) -> (r: Result<
    Settings<String>,
    ArgError<String>,
>)
    ensures
        match r {
            Ok(next) => applied(s@, flag@, value@, fraction) == Ok::<
                Settings<Seq<char>>,
                ArgError<Seq<char>>,
            >(next@),
            Err(e) => applied(s@, flag@, value@, fraction) == Err::<
                Settings<Seq<char>>,
                ArgError<Seq<char>>,
            >(e@),
        },
{
    let mut s = s;
    let name = flag.as_str();
    if same(name, "--data") {
        s.data = Some(value);
    } else if same(name, "--out") {
        s.out = value;
    } else if same(name, "--size") {
        match ModelSize::parse(value.as_str()) {
            Some(size) => {
                s.size = size;
            },
            None => {
                return Err(ArgError::InvalidSize { value });
            },
        }
    } else if same(name, "--strategy") {
        match TrainStrategy::parse(value.as_str()) {
            Some(strategy) => {
                s.strategy = strategy;
            },
            None => {
                return Err(ArgError::InvalidStrategy { value });
            },
        }
    } else if same(name, "--epochs") {
        match read_usize(flag, value) {
            Ok(v) => {
                s.epochs = v;
            },
            Err(e) => {
                return Err(e);
            },
        }
    } else if same(name, "--lr") {
        match read_fraction(flag, value, fraction) {
            Ok(v) => {
                s.lr = v;
            },
            Err(e) => {
                return Err(e);
            },
        }
    } else if same(name, "--crop") {
        match read_usize(flag, value) {
            Ok(v) => {
                s.crop = v;
            },
            Err(e) => {
                return Err(e);
            },
        }
    } else if same(name, "--seed") {
        match parse_unsigned(value.as_str(), u64::MAX) {
            Some(v) => {
                s.seed = v;
            },
            None => {
                return Err(ArgError::InvalidInteger { flag: flag.clone(), value });
            },
        }
    } else if same(name, "--ss-max") {
        match read_fraction(flag, value, fraction) {
            Ok(v) => {
                s.ss_max = v;
            },
            Err(e) => {
                return Err(e);
            },
        }
    } else if same(name, "--ckpt-every") {
        match read_usize(flag, value) {
            Ok(v) => {
                s.ckpt_every = v;
            },
            Err(e) => {
                return Err(e);
            },
        }
    } else if same(name, "--corr-radius") {
        match read_usize(flag, value) {
            Ok(v) => {
                s.corr_radius = Some(v);
            },
            Err(e) => {
                return Err(e);
            },
        }
    } else if same(name, "--real-data") {
        s.real_data = Some(value);
    } else {
        match read_fraction(flag, value, fraction) {
            Ok(v) => {
                s.photometric_weight = v;
            },
            Err(e) => {
                return Err(e);
            },
        }
    }
    Ok(s)
}

/// Reads a command line, without the program's name. `fractions[i]` says
/// whether word `i` reads as a decimal fraction.
pub fn parse(argv: &Vec<String>, fractions: &Vec<bool>) -> (r: Parsed<String>)
    requires
        fractions@.len() == argv@.len(),
    ensures
        r@ == parsed_from(words(argv@), fractions@, 0, default_settings()),
{
    let mut s = Settings {
        data: None,
        out: "checkpoints".to_owned(),
        size: ModelSize::M,
        strategy: TrainStrategy::Pairwise,
        epochs: 40,
        lr: "3e-4".to_owned(),
        crop: 256,
        seed: 42,
        ss_max: "0.5".to_owned(),
        ckpt_every: 200,
        resume: false,
        corr_radius: None,
        real_data: None,
        photometric_weight: "0.1".to_owned(),
    };
    let ghost want = parsed_from(words(argv@), fractions@, 0, default_settings());
    assert(s@ == default_settings());
    let mut i: usize = 0;
    while i < argv.len()
        invariant
            i <= argv@.len(),
            fractions@.len() == argv@.len(),
            want == parsed_from(words(argv@), fractions@, 0, default_settings()),
            parsed_from(words(argv@), fractions@, i as int, s@) == want,
        decreases argv@.len() - i,
    {
        let flag = argv[i].clone();
        assert(words(argv@)[i as int] == flag@);
        if same(flag.as_str(), "--resume") {
            s.resume = true;
            i = i + 1;
            continue ;
        }
        if same(flag.as_str(), "-h") || same(flag.as_str(), "--help") {
            return Parsed::Help;
        }
        if !flag_takes_value(flag.as_str()) {
            return Parsed::Wrong(ArgError::UnknownArgument { flag });
        }
        let value = match value_after(argv, i, flag.as_str()) {
            Ok(v) => v,
            Err(e) => {
                return Parsed::Wrong(e);
            },
        };
        match apply(s, &flag, value, fractions[i + 1]) {
            Ok(next) => {
                s = next;
            },
            Err(e) => {
                return Parsed::Wrong(e);
            },
        }
        i = i + 2;
    }
    if s.data.is_none() {
        return Parsed::Wrong(ArgError::DataRequired);
    }
    if s.ckpt_every == 0 {
        s.ckpt_every = 1;
    }
    Parsed::Run(s)
}

/// The message of a command-line error that the program words itself. A text
/// that does not read as a number is worded by the number's own parser.
pub open spec fn arg_message(e: ArgError<Seq<char>>) -> Option<Seq<char>> {
    match e {
        ArgError::MissingValue { flag } => Some("missing value for "@ + flag),
        ArgError::InvalidSize { value } => Some(
            "invalid --size '"@ + value + "' (xs|s|m|l|xl|xxl)"@,
        ),
        ArgError::InvalidStrategy { value } => Some(
            "invalid --strategy '"@ + value + "' (pairwise|batch|align|fusion-align)"@,
        ),
        ArgError::UnknownArgument { flag } => Some("unknown argument: "@ + flag),
        ArgError::DataRequired => Some("--data <dir> is required"@),
        ArgError::InvalidInteger { flag, value } => None,
        ArgError::InvalidFloat { flag, value } => None,
    }
}

impl ArgError<String> {
    /// The message shown to the user, where the program words it itself.
    pub fn message(&self) -> (r: Option<String>)
        ensures
            opt_view(r) == arg_message(self@),
    {
        match self {
            ArgError::MissingValue { flag } => {
                let mut s = "missing value for ".to_owned();
                s.append(flag.as_str());
                Some(s)
            },
            ArgError::InvalidSize { value } => {
                let mut s = "invalid --size '".to_owned();
                s.append(value.as_str());
                s.append("' (xs|s|m|l|xl|xxl)");
                Some(s)
            },
            ArgError::InvalidStrategy { value } => {
                let mut s = "invalid --strategy '".to_owned();
                s.append(value.as_str());
                s.append("' (pairwise|batch|align|fusion-align)");
                Some(s)
            },
            ArgError::UnknownArgument { flag } => {
                let mut s = "unknown argument: ".to_owned();
                s.append(flag.as_str());
                Some(s)
            },
            ArgError::DataRequired => Some("--data <dir> is required".to_owned()),
            ArgError::InvalidInteger { .. } => None,
            ArgError::InvalidFloat { .. } => None,
        }
    }
}

/// The state that a checkpoint records.
#[derive(Debug, PartialEq, Eq)]
pub struct TrainState {
    pub epoch: usize,
    pub global_step: usize,
    pub size: ModelSize,
    pub strategy: String,
}

impl TrainState {
    /// The state of a run that is to be resumed at an epoch and a step.
    pub fn of_run(size: ModelSize, strategy: TrainStrategy, epoch: usize, global_step: usize) -> (r:
        Self)
        ensures
            r.epoch == epoch,
            r.global_step == global_step,
            r.size == size,
            r.strategy@ == strategy_name(strategy),
    {
        TrainState { epoch, global_step, size, strategy: strategy.as_str().to_owned() }
    }
}

/// Why a run cannot go on from a checkpoint.
#[derive(Debug, PartialEq, Eq)]
pub enum ResumeError {
    /// The checkpoint has another size.
    Size { checkpoint: ModelSize, asked: ModelSize },
    /// The checkpoint belongs to another strategy.
    Strategy { trained: String, wanted: TrainStrategy },
}

/// The epoch and step that a run goes on from, or why it cannot: the size is
/// looked at first.
pub fn validate_resume_state(state: &TrainState, size: ModelSize, strategy: TrainStrategy) -> (r:
    Result<(usize, usize), ResumeError>)
    ensures
        match r {
            Ok(at) => {
                &&& state.size == size
                &&& state.strategy@ == strategy_name(strategy)
                &&& at == (state.epoch, state.global_step)
            },
            Err(ResumeError::Size { checkpoint, asked }) => {
                &&& state.size != size
                &&& checkpoint == state.size
                &&& asked == size
            },
            Err(ResumeError::Strategy { trained, wanted }) => {
                &&& state.size == size
                &&& state.strategy@ != strategy_name(strategy)
                &&& trained@ == state.strategy@
                &&& wanted == strategy
            },
        },
{
    if state.size != size {
        return Err(ResumeError::Size { checkpoint: state.size, asked: size });
    }
    if !same(state.strategy.as_str(), strategy.as_str()) {
        return Err(ResumeError::Strategy { trained: state.strategy.clone(), wanted: strategy });
    }
    Ok((state.epoch, state.global_step))
}

/// The message of a resume error.
pub open spec fn resume_message(e: ResumeError) -> Seq<char> {
    match e {
        ResumeError::Size { checkpoint, asked } => "resume size mismatch: checkpoint is '"@
            + size_tag(checkpoint) + "', --size is '"@ + size_tag(asked) + "'"@,
        ResumeError::Strategy { trained, wanted } =>
        "resume strategy mismatch: checkpoint is '"@ + trained@ + "', --strategy is '"@
            + strategy_name(wanted) + "'"@,
    }
}

impl ResumeError {
    /// The message shown to the user.
    pub fn message(&self) -> (r: String)
        ensures
            r@ == resume_message(*self),
    {
        match self {
            ResumeError::Size { checkpoint, asked } => {
                let mut s = "resume size mismatch: checkpoint is '".to_owned();
                s.append(checkpoint.as_str());
                s.append("', --size is '");
                s.append(asked.as_str());
                s.append("'");
                s
            },
            ResumeError::Strategy { trained, wanted } => {
                let mut s = "resume strategy mismatch: checkpoint is '".to_owned();
                s.append(trained.as_str());
                s.append("', --strategy is '");
                s.append(wanted.as_str());
                s.append("'");
                s
            },
        }
    }
}

/// A command line that names the data directory alone leaves every other
/// option at its default.
pub proof fn law_data_alone_gives_defaults(dir: Seq<char>, fractions: Seq<bool>)
    requires
        fractions.len() == 2,
    ensures
        parsed_from(seq!["--data"@, dir], fractions, 0, default_settings()) == Parsed::Run(
            Settings { data: Some(dir), ..default_settings() },
        ),
{
    reveal_with_fuel(parsed_from, 3);
    reveal_strlit("--data");
    reveal_strlit("--resume");
    reveal_strlit("-h");
    reveal_strlit("--help");
    assert("--data"@.len() == 6);
    assert("--resume"@.len() == 8);
    assert("-h"@.len() == 2);
    assert("--help"@.len() == 6);
    assert("--data"@[2] == 'd' && "--help"@[2] == 'h');
}

/// A letter that tells flags apart: what stands after the two dashes.
proof fn lemma_flags()
    ensures
        "--data"@.len() >= 4 && "--data"@[2] == 'd' && "--data"@[3] == 'a',
        "--out"@.len() >= 4 && "--out"@[2] == 'o' && "--out"@[3] == 'u',
        "--size"@.len() >= 4 && "--size"@[2] == 's' && "--size"@[3] == 'i',
        "--strategy"@.len() >= 4 && "--strategy"@[2] == 's' && "--strategy"@[3] == 't',
        "--epochs"@.len() >= 4 && "--epochs"@[2] == 'e' && "--epochs"@[3] == 'p',
        "--lr"@.len() >= 4 && "--lr"@[2] == 'l' && "--lr"@[3] == 'r',
        "--crop"@.len() >= 4 && "--crop"@[2] == 'c' && "--crop"@[3] == 'r',
        "--seed"@.len() >= 4 && "--seed"@[2] == 's' && "--seed"@[3] == 'e',
        "--ss-max"@.len() >= 4 && "--ss-max"@[2] == 's' && "--ss-max"@[3] == 's',
        "--ckpt-every"@.len() >= 4 && "--ckpt-every"@[2] == 'c' && "--ckpt-every"@[3] == 'k',
        "--corr-radius"@.len() >= 4 && "--corr-radius"@[2] == 'c' && "--corr-radius"@[3] == 'o',
        "--real-data"@.len() >= 4 && "--real-data"@[2] == 'r' && "--real-data"@[3] == 'e',
        "--photometric-weight"@.len() >= 4 && "--photometric-weight"@[2] == 'p' && "--photometric-weight"@[3] == 'h',
        "--resume"@.len() == 8 && "--resume"@[2] == 'r' && "--resume"@[3] == 'e' && "--resume"@[4]
            == 's',
        "--real-data"@[4] == 'a',
        "--help"@.len() == 6 && "--help"@[2] == 'h',
        "-h"@.len() == 2,
{
    reveal_strlit("--data");
    reveal_strlit("--out");
    reveal_strlit("--size");
    reveal_strlit("--strategy");
    reveal_strlit("--epochs");
    reveal_strlit("--lr");
    reveal_strlit("--crop");
    reveal_strlit("--seed");
    reveal_strlit("--ss-max");
    reveal_strlit("--ckpt-every");
    reveal_strlit("--corr-radius");
    reveal_strlit("--real-data");
    reveal_strlit("--photometric-weight");
    reveal_strlit("--resume");
    reveal_strlit("--help");
    reveal_strlit("-h");
}

/// Every flag takes a value and sets the option of its own name, and no other.
/// The flags that take none are no such flags.
pub proof fn law_flags_set_their_own_option(
    s: Settings<Seq<char>>,
    value: Seq<char>,
    fraction: bool,
)
    ensures
        takes_value("--data"@),
        takes_value("--out"@),
        takes_value("--size"@),
        takes_value("--strategy"@),
        takes_value("--epochs"@),
        takes_value("--lr"@),
        takes_value("--crop"@),
        takes_value("--seed"@),
        takes_value("--ss-max"@),
        takes_value("--ckpt-every"@),
        takes_value("--corr-radius"@),
        takes_value("--real-data"@),
        takes_value("--photometric-weight"@),
        !takes_value("--resume"@) && !takes_value("-h"@) && !takes_value("--help"@),
        applied(s, "--data"@, value, fraction) == Ok::<_, ArgError<Seq<char>>>(
            Settings { data: Some(value), ..s },
        ),
        applied(s, "--out"@, value, fraction) == Ok::<_, ArgError<Seq<char>>>(
            Settings { out: value, ..s },
        ),
        applied(s, "--size"@, value, fraction) == match size_of_tag(lower(trimmed(value))) {
            Some(size) => Ok::<_, ArgError<Seq<char>>>(Settings { size, ..s }),
            None => Err(ArgError::InvalidSize { value }),
        },
        applied(s, "--strategy"@, value, fraction) == match strategy_named(value) {
            Some(strategy) => Ok::<_, ArgError<Seq<char>>>(Settings { strategy, ..s }),
            None => Err(ArgError::InvalidStrategy { value }),
        },
        applied(s, "--epochs"@, value, fraction) == match usize_of(value) {
            Some(v) => Ok::<_, ArgError<Seq<char>>>(Settings { epochs: v, ..s }),
            None => Err(ArgError::InvalidInteger { flag: "--epochs"@, value }),
        },
        applied(s, "--lr"@, value, fraction) == if fraction {
            Ok::<_, ArgError<Seq<char>>>(Settings { lr: value, ..s })
        } else {
            Err(ArgError::InvalidFloat { flag: "--lr"@, value })
        },
        applied(s, "--crop"@, value, fraction) == match usize_of(value) {
            Some(v) => Ok::<_, ArgError<Seq<char>>>(Settings { crop: v, ..s }),
            None => Err(ArgError::InvalidInteger { flag: "--crop"@, value }),
        },
        applied(s, "--seed"@, value, fraction) == match u64_of(value) {
            Some(v) => Ok::<_, ArgError<Seq<char>>>(Settings { seed: v, ..s }),
            None => Err(ArgError::InvalidInteger { flag: "--seed"@, value }),
        },
        applied(s, "--ss-max"@, value, fraction) == if fraction {
            Ok::<_, ArgError<Seq<char>>>(Settings { ss_max: value, ..s })
        } else {
            Err(ArgError::InvalidFloat { flag: "--ss-max"@, value })
        },
        applied(s, "--ckpt-every"@, value, fraction) == match usize_of(value) {
            Some(v) => Ok::<_, ArgError<Seq<char>>>(Settings { ckpt_every: v, ..s }),
            None => Err(ArgError::InvalidInteger { flag: "--ckpt-every"@, value }),
        },
        applied(s, "--corr-radius"@, value, fraction) == match usize_of(value) {
            Some(v) => Ok::<_, ArgError<Seq<char>>>(Settings { corr_radius: Some(v), ..s }),
            None => Err(ArgError::InvalidInteger { flag: "--corr-radius"@, value }),
        },
        applied(s, "--real-data"@, value, fraction) == Ok::<_, ArgError<Seq<char>>>(
            Settings { real_data: Some(value), ..s },
        ),
        applied(s, "--photometric-weight"@, value, fraction) == if fraction {
            Ok::<_, ArgError<Seq<char>>>(Settings { photometric_weight: value, ..s })
        } else {
            Err(ArgError::InvalidFloat { flag: "--photometric-weight"@, value })
        },
{
    lemma_flags();
}

/// A later value of a flag replaces the earlier one: what was read before it
/// leaves no trace.
pub proof fn law_later_value_wins(
    s: Settings<Seq<char>>,
    flag: Seq<char>,
    first: Seq<char>,
    a: bool,
    second: Seq<char>,
    b: bool,
)
    requires
        applied(s, flag, first, a) is Ok,
    ensures
        applied(applied(s, flag, first, a)->Ok_0, flag, second, b) == applied(s, flag, second, b),
{
}

proof fn lemma_read_on(
    argv: Seq<Seq<char>>,
    fractions: Seq<bool>,
    i: int,
    s: Settings<Seq<char>>,
)
    requires
        fractions.len() == argv.len(),
        0 <= i <= argv.len(),
    ensures
        parsed_from(argv, fractions, i, s) == parsed_from(argv.skip(i), fractions.skip(i), 0, s),
    decreases argv.len() - i,
{
    let rest = argv.skip(i);
    let told = fractions.skip(i);
    if i == 0 {
        assert(rest =~= argv);
        assert(told =~= fractions);
    } else if i < argv.len() {
        assert(rest[0] == argv[i]);
        let resumed = Settings { resume: true, ..s };
        lemma_read_on(argv, fractions, i + 1, resumed);
        lemma_read_on(rest, told, 1, resumed);
        assert(rest.skip(1) =~= argv.skip(i + 1));
        assert(told.skip(1) =~= fractions.skip(i + 1));
        if i + 1 < argv.len() {
            assert(rest[1] == argv[i + 1]);
            assert(told[1] == fractions[i + 1]);
            if let Ok(next) = applied(s, argv[i], argv[i + 1], fractions[i + 1]) {
                lemma_read_on(argv, fractions, i + 2, next);
                lemma_read_on(rest, told, 2, next);
                assert(rest.skip(2) =~= argv.skip(i + 2));
                assert(told.skip(2) =~= fractions.skip(i + 2));
            }
        }
    }
}

/// How a command line is read: word by word from its first on. A flag that
/// takes a value takes the word after it, whatever that reads like, and the
/// rest is read with what it gives; a request for help ends the reading; so
/// does the first word that is no flag, a flag without its value, and a value
/// that does not fit.
pub proof fn law_words_are_read_in_order(
    argv: Seq<Seq<char>>,
    fractions: Seq<bool>,
    s: Settings<Seq<char>>,
)
    requires
        fractions.len() == argv.len(),
        argv.len() > 0,
    ensures
        ({
            let flag = argv[0];
            let r = parsed_from(argv, fractions, 0, s);
            &&& flag == "--resume"@ ==> r == parsed_from(
                argv.skip(1),
                fractions.skip(1),
                0,
                Settings { resume: true, ..s },
            )
            &&& flag == "-h"@ || flag == "--help"@ ==> r is Help
            &&& takes_value(flag) && argv.len() == 1 ==> r == Parsed::Wrong(
                ArgError::MissingValue { flag },
            )
            &&& takes_value(flag) && argv.len() > 1 ==> r == match applied(
                s,
                flag,
                argv[1],
                fractions[1],
            ) {
                Ok(next) => parsed_from(argv.skip(2), fractions.skip(2), 0, next),
                Err(e) => Parsed::Wrong(e),
            }
            &&& !takes_value(flag) && flag != "--resume"@ && flag != "-h"@ && flag != "--help"@
                ==> r == Parsed::Wrong(ArgError::UnknownArgument { flag })
        }),
{
    lemma_flags();
    let flag = argv[0];
    lemma_read_on(argv, fractions, 1, Settings { resume: true, ..s });
    if argv.len() > 1 {
        if let Ok(next) = applied(s, flag, argv[1], fractions[1]) {
            lemma_read_on(argv, fractions, 2, next);
        }
    }
}

/// Where all words are read, a run has every option as it was read, with
/// checkpoints at least a step apart. Without a data directory there is none.
pub proof fn law_options_are_kept(fractions: Seq<bool>, s: Settings<Seq<char>>)
    ensures
        ({
            let r = parsed_from(Seq::empty(), fractions, 0, s);
            &&& s.data is None ==> r == Parsed::<Seq<char>>::Wrong(ArgError::DataRequired)
            &&& s.data is Some && s.ckpt_every > 0 ==> r == Parsed::Run(s)
            &&& s.data is Some && s.ckpt_every == 0 ==> r == Parsed::Run(
                Settings { ckpt_every: 1, ..s },
            )
        }),
{
}

/// A run goes on from its own checkpoint, at the epoch and step recorded there,
/// and from no checkpoint of another size or another strategy.
pub proof fn law_own_checkpoint_resumes(
    size: ModelSize,
    strategy: TrainStrategy,
    epoch: usize,
    global_step: usize,
    state: TrainState,
    asked_size: ModelSize,
    asked: TrainStrategy,
    r: Result<(usize, usize), ResumeError>,
)
    requires
        call_ensures(TrainState::of_run, (size, strategy, epoch, global_step), state),
        call_ensures(validate_resume_state, (&state, asked_size, asked), r),
    ensures
        r is Ok <==> size == asked_size && strategy == asked,
        r matches Ok(at) ==> at == (epoch, global_step),
        size != asked_size ==> r == Err::<(usize, usize), _>(
            ResumeError::Size { checkpoint: size, asked: asked_size },
        ),
        size == asked_size && strategy != asked ==> (r matches Err(
            ResumeError::Strategy { trained, wanted },
        ) && trained@ == strategy_name(strategy) && wanted == asked),
{
    law_strategy_round_trip(strategy);
    law_strategy_round_trip(asked);
}

} // verus!
