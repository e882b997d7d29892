//! Settings from the command line, the environment and the configuration file.

use vstd::prelude::*;

use crate::cli::{first_given, first_given_of, DownloadArgs};
use crate::paths::{join_path, joined, steps, Platform};
use crate::reach::{joined_steps, lemma_one_step};
use crate::text::{is_blank, is_blank_text, slice_text_of, text_of};

verus! {

/// Settings that hold for every command.
#[derive(Debug)]
pub struct Config {
    pub hf_token: Option<String>,
    pub modelscope_token: Option<String>,
    pub default_threads: usize,
    pub cache_dir: String,
}

/// What the configuration file says.
#[derive(Debug)]
pub struct FileConfig {
    pub hf_token: Option<String>,
    pub modelscope_token: Option<String>,
    pub default_threads: Option<usize>,
    pub cache_dir: Option<String>,
}

/// Settings of one download.
#[derive(Debug)]
pub struct EffectiveConfig {
    pub hf_token: Option<String>,
    pub modelscope_token: Option<String>,
    pub threads: usize,
    pub cache_dir: String,
}

/// The first value that is set.
pub open spec fn first_set(values: Seq<Option<String>>) -> Option<Seq<char>>
    decreases values.len(),
{
    if values.len() == 0 {
        None
    } else if values[0] is Some {
        text_of(values[0])
    } else {
        first_set(values.drop_first())
    }
}

/// What a list of environment variables says: the first one that is set, unless it is
/// blank.
pub open spec fn from_environment(values: Seq<Option<String>>) -> Option<Seq<char>> {
    match first_set(values) {
        Some(value) if !is_blank(value) => Some(value),
        _ => None,
    }
}

/// The number of threads for a wish: at least one.
pub open spec fn at_least_one(threads: usize) -> usize {
    if threads == 0 {
        1
    } else {
        threads
    }
}

/// The cache below a home directory, or in the current directory without one.
pub open spec fn default_cache(home: Option<Seq<char>>, platform: Platform) -> Seq<char> {
    match home {
        Some(home) => joined(joined(home, ".cache"@, platform), "mget"@, platform),
        None => ".mget-cache"@,
    }
}

/// A token for every command: one from the environment comes before one from the file.
pub open spec fn loaded_token(env: Seq<Option<String>>, file: Option<String>) -> Option<Seq<char>> {
    first_given(from_environment(env), text_of(file))
}

/// The number of threads for every command.
pub open spec fn loaded_threads(file: Option<usize>) -> usize {
    match file {
        Some(threads) => at_least_one(threads),
        None => 6,
    }
}

/// The cache for every command.
pub open spec fn loaded_cache(
    file: Option<String>,
    home: Option<Seq<char>>,
    platform: Platform,
) -> Seq<char> {
    match file {
        Some(dir) => dir@,
        None => default_cache(home, platform),
    }
}

/// A token for one download: one from the command line comes before the one for every command.
pub open spec fn effective_token(arg: Option<String>, config: Option<String>) -> Option<Seq<char>> {
    first_given(text_of(arg), text_of(config))
}

/// The number of threads for one download.
pub open spec fn effective_threads(arg: Option<usize>, default_threads: usize) -> usize {
    at_least_one(
        match arg {
            Some(threads) => threads,
            None => default_threads,
        },
    )
}

/// What a list of environment variables says, each `None` where it is not set.
pub fn env_first(values: &Vec<Option<String>>) -> (r: Option<String>)
    ensures
        text_of(r) == from_environment(values@),
{
    let mut i: usize = 0;
    assert(values@.skip(0) == values@);
    while i < values.len()
        invariant
            i <= values.len(),
            first_set(values@.skip(i as int)) == first_set(values@),
        decreases values.len() - i,
    {
        assert(values@.skip(i as int)[0] == values@[i as int]);
        assert(values@.skip(i as int).drop_first() == values@.skip(i + 1));
        if let Some(value) = &values[i] {
            if is_blank_text(value.as_str()) {
                return None;
            }
            return Some(value.clone());
        }
        i += 1;
    }
    None
}

impl FileConfig {
    /// What holds without a configuration file.
    pub fn empty() -> (r: Self)
        ensures
            r.hf_token is None,
            r.modelscope_token is None,
            r.default_threads is None,
            r.cache_dir is None,
    {
        FileConfig { hf_token: None, modelscope_token: None, default_threads: None, cache_dir: None }
    }
}

impl Config {
    /// Settings from the configuration file, the values of the environment variables
    /// for the two tokens and the home directory. The environment comes before the
    /// file.
    pub fn load(
        file: FileConfig,
        hf_env: &Vec<Option<String>>,
        modelscope_env: &Vec<Option<String>>,
        home: Option<&str>,
        platform: Platform,
    ) -> (r: Self)
        ensures
            text_of(r.hf_token) == loaded_token(hf_env@, file.hf_token),
            text_of(r.modelscope_token) == loaded_token(modelscope_env@, file.modelscope_token),
            r.default_threads == loaded_threads(file.default_threads),
            r.cache_dir@ == loaded_cache(file.cache_dir, slice_text_of(home), platform),
    {
        let hf = env_first(hf_env);
        let modelscope = env_first(modelscope_env);
        let threads: usize = match file.default_threads {
            Some(threads) => threads,
            None => 6,
        };
        let cache_dir = match file.cache_dir {
            Some(dir) => dir,
            None => match home {
                Some(home) => {
                    let cache = join_path(home, ".cache", platform);
                    join_path(cache.as_str(), "mget", platform)
                },
                None => ".mget-cache".to_owned(),
            },
        };
        Config {
            hf_token: first_given_of(&hf, &file.hf_token),
            modelscope_token: first_given_of(&modelscope, &file.modelscope_token),
            default_threads: if threads == 0 {
                1
            } else {
                threads
            },
            cache_dir,
        }
    }

    /// Settings of one download: the command line comes before everything else.
    pub fn effective_for(&self, args: &DownloadArgs) -> (r: EffectiveConfig)
        ensures
            text_of(r.hf_token) == effective_token(args.hf_token, self.hf_token),
            text_of(r.modelscope_token) == effective_token(
                args.modelscope_token,
                self.modelscope_token,
            ),
            r.threads == effective_threads(args.threads, self.default_threads),
            r.cache_dir == self.cache_dir,
    {
        let threads: usize = match args.threads {
            Some(threads) => threads,
            None => self.default_threads,
        };
        EffectiveConfig {
            hf_token: first_given_of(&args.hf_token, &self.hf_token),
            modelscope_token: first_given_of(&args.modelscope_token, &self.modelscope_token),
            threads: if threads == 0 {
                1
            } else {
                threads
            },
            cache_dir: self.cache_dir.clone(),
        }
    }
}

/// A token on the command line comes before one in the environment, and that before one in
/// the configuration file.
pub proof fn command_line_before_environment_before_file(
    args: DownloadArgs,
    hf_env: Seq<Option<String>>,
    modelscope_env: Seq<Option<String>>,
    file: FileConfig,
    config: Config,
)
    requires
        text_of(config.hf_token) == first_given(from_environment(hf_env), text_of(file.hf_token)),
        text_of(config.modelscope_token) == first_given(
            from_environment(modelscope_env),
            text_of(file.modelscope_token),
        ),
    ensures
        first_given(text_of(args.hf_token), text_of(config.hf_token)) == (if args.hf_token is Some {
            text_of(args.hf_token)
        } else if from_environment(hf_env) is Some {
            from_environment(hf_env)
        } else {
            text_of(file.hf_token)
        }),
        first_given(text_of(args.modelscope_token), text_of(config.modelscope_token)) == (
        if args.modelscope_token is Some {
            text_of(args.modelscope_token)
        } else if from_environment(modelscope_env) is Some {
            from_environment(modelscope_env)
        } else {
            text_of(file.modelscope_token)
        }),
{
}

/// The token for a download is the one of the command line where there is one, else the one
/// of the environment, else the one of the file.
pub proof fn nearer_tokens_come_first(
    arg: Option<String>,
    env: Seq<Option<String>>,
    file: Option<String>,
    config: Option<String>,
)
    requires
        text_of(config) == loaded_token(env, file),
    ensures
        arg matches Some(token) ==> effective_token(arg, config) == Some(token@),
        arg is None && from_environment(env) is Some ==> effective_token(arg, config)
            == from_environment(env),
        arg is None && from_environment(env) is None ==> effective_token(arg, config) == text_of(
            file,
        ),
{
}

/// The number of threads is the one of the command line, else the one of the file, else six; a
/// wish for none is one for one. A cache that the file names is used as it is.
pub proof fn wishes_come_before_defaults(
    arg: Option<usize>,
    file: Option<usize>,
    n: usize,
    dir: String,
    home: Option<Seq<char>>,
    platform: Platform,
)
    ensures
        n > 0 ==> effective_threads(Some(n), loaded_threads(file)) == n,
        effective_threads(Some(0), loaded_threads(file)) == 1,
        n > 0 ==> effective_threads(None, loaded_threads(Some(n))) == n,
        effective_threads(None, loaded_threads(Some(0))) == 1,
        effective_threads(None, loaded_threads(None)) == 6,
        loaded_cache(Some(dir), home, platform) == dir@,
        loaded_cache(None, home, platform) == default_cache(home, platform),
        default_cache(None, platform) == ".mget-cache"@,
{
}

/// The first environment variable that is set decides: its value counts unless it is blank, and
/// then no other one does.
pub proof fn first_variable_decides(values: Seq<Option<String>>, i: int)
    requires
        0 <= i < values.len(),
        values[i] is Some,
        forall|j: int| 0 <= j < i ==> #[trigger] values[j] is None,
    ensures
        from_environment(values) == (if is_blank((values[i]->0)@) {
            None
        } else {
            Some((values[i]->0)@)
        }),
{
    lemma_first_set(values, i);
}

/// The first value that is set.
proof fn lemma_first_set(values: Seq<Option<String>>, i: int)
    requires
        0 <= i < values.len(),
        values[i] is Some,
        forall|j: int| 0 <= j < i ==> #[trigger] values[j] is None,
    ensures
        first_set(values) == Some((values[i]->0)@),
    decreases values.len(),
{
    if i > 0 {
        assert(values[0] is None);
        let rest = values.drop_first();
        assert forall|j: int| 0 <= j < i - 1 implies #[trigger] rest[j] is None by {
            assert(rest[j] == values[j + 1]);
        }
        lemma_first_set(rest, i - 1);
    }
}

/// Where no variable is set the environment says nothing.
pub proof fn unset_variables_say_nothing(values: Seq<Option<String>>)
    requires
        forall|j: int| 0 <= j < values.len() ==> #[trigger] values[j] is None,
    ensures
        from_environment(values) is None,
    decreases values.len(),
{
    if values.len() > 0 {
        assert(values[0] is None);
        let rest = values.drop_first();
        assert forall|j: int| 0 <= j < rest.len() implies #[trigger] rest[j] is None by {
            assert(rest[j] == values[j + 1]);
        }
        unset_variables_say_nothing(rest);
    }
}

/// A number of threads is taken as it is, but for none, which is taken for one.
pub proof fn threads_are_at_least_one(threads: usize)
    ensures
        threads > 0 ==> at_least_one(threads) == threads,
        at_least_one(0) == 1,
{
}

/// On Unix the cache is reached from the home directory by two steps.
pub proof fn cache_is_below_home(home: Seq<char>)
    ensures
        steps(default_cache(Some(home), Platform::Unix), Platform::Unix) == steps(
            home,
            Platform::Unix,
        ) + seq![".cache"@, "mget"@],
{
    reveal_strlit(".cache");
    reveal_strlit("mget");
    reveal_strlit(".");
    assert(".cache"@.len() != "."@.len() && "mget"@.len() != "."@.len());
    let platform = Platform::Unix;
    lemma_one_step(".cache"@);
    lemma_one_step("mget"@);
    joined_steps(home, ".cache"@, platform);
    joined_steps(joined(home, ".cache"@, platform), "mget"@, platform);
    assert(steps(home, platform) + seq![".cache"@] + seq!["mget"@] =~= steps(home, platform)
        + seq![".cache"@, "mget"@]);
}

} // verus!
