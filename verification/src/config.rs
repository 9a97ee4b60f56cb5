//! What the agent runs with: command line, configuration file and defaults.

use vstd::prelude::*;
use crate::api::opt_view;

verus! {

/// Where requests go unless something else is configured.
pub const DEFAULT_API_URL: &'static str = "http://localhost:11434/v1";

/// Which model is asked unless something else is configured.
pub const DEFAULT_MODEL: &'static str = "qwen3:30b-a3b";

/// Where plugins are looked for unless something else is configured.
pub const DEFAULT_PLUGINS: &'static str = "./plugins";

/// How many tokens a model takes unless something else is configured.
pub const DEFAULT_CONTEXT_LIMIT: u64 = 128000;

/// What the configuration file says.
#[derive(Debug)]
pub struct Config {
    pub api_url: Option<String>,
    pub model: Option<String>,
    pub api_key: Option<String>,
    pub system_prompt: Option<String>,
    pub plugins: Option<String>,
    pub context_limit: Option<u64>,
    pub provider: Option<String>,
}

/// What the command line says.
#[derive(Debug)]
pub struct Args {
    pub api_url: Option<String>,
    pub model: Option<String>,
    pub api_key: Option<String>,
    pub system_prompt: Option<String>,
    pub plugins: Option<String>,
    pub context_limit: Option<u64>,
    pub provider: Option<String>,
}

/// What holds in the end.
#[derive(Debug)]
pub struct Resolved {
    pub api_url: String,
    pub model: String,
    pub api_key: Option<String>,
    pub system_prompt: Option<String>,
    pub plugins: Option<String>,
    pub context_limit: u64,
    pub provider: Option<String>,
}

/// The first of two values, or the second where there is no first.
pub open spec fn first_of<A>(first: Option<A>, second: Option<A>) -> Option<A> {
    match first {
        Some(value) => Some(value),
        None => second,
    }
}

/// A value, or a fallback where there is none.
pub open spec fn value_or<A>(value: Option<A>, fallback: A) -> A {
    match value {
        Some(value) => value,
        None => fallback,
    }
}

fn either(first: Option<String>, second: Option<String>) -> (r: Option<String>)
    ensures
        opt_view(r) == first_of(opt_view(first), opt_view(second)),
{
    match first {
        Some(text) => Some(text),
        None => second,
    }
}

fn text_or(value: Option<String>, fallback: &str) -> (r: String)
    ensures
        r@ == value_or(opt_view(value), fallback@),
{
    match value {
        Some(text) => text,
        None => fallback.to_string(),
    }
}

/// Each setting is what the command line says, else what the configuration file says,
/// else its default, where it has one.
pub fn resolve(args: Args, cfg: Config) -> (r: Resolved)
    ensures
        r.api_url@ == value_or(
            first_of(opt_view(args.api_url), opt_view(cfg.api_url)),
            DEFAULT_API_URL@,
        ),
        r.model@ == value_or(first_of(opt_view(args.model), opt_view(cfg.model)), DEFAULT_MODEL@),
        opt_view(r.api_key) == first_of(opt_view(args.api_key), opt_view(cfg.api_key)),
        opt_view(r.system_prompt) == first_of(
            opt_view(args.system_prompt),
            opt_view(cfg.system_prompt),
        ),
        opt_view(r.plugins) == Some(
            value_or(first_of(opt_view(args.plugins), opt_view(cfg.plugins)), DEFAULT_PLUGINS@),
        ),
        r.context_limit == value_or(
            first_of(args.context_limit, cfg.context_limit),
            DEFAULT_CONTEXT_LIMIT,
        ),
        opt_view(r.provider) == first_of(opt_view(args.provider), opt_view(cfg.provider)),
{
    let context_limit = match args.context_limit {
        Some(limit) => limit,
        None => match cfg.context_limit {
            Some(limit) => limit,
            None => DEFAULT_CONTEXT_LIMIT,
        },
    };
    Resolved {
        api_url: text_or(either(args.api_url, cfg.api_url), DEFAULT_API_URL),
        model: text_or(either(args.model, cfg.model), DEFAULT_MODEL),
        api_key: either(args.api_key, cfg.api_key),
        system_prompt: either(args.system_prompt, cfg.system_prompt),
        plugins: Some(text_or(either(args.plugins, cfg.plugins), DEFAULT_PLUGINS)),
        context_limit,
        provider: either(args.provider, cfg.provider),
    }
}

/// What is said first counts, then what is said second, and the fallback only where
/// nothing is said.
pub proof fn the_first_that_is_said_counts<A>(said: A, other: Option<A>, fallback: A)
    ensures
        value_or(first_of(Some(said), other), fallback) == said,
        value_or(first_of(None, Some(said)), fallback) == said,
        value_or(first_of(None::<A>, None), fallback) == fallback,
        first_of(Some(said), other) == Some(said),
        first_of(None, other) == other,
{
}

} // verus!
