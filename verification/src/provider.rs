//! Providers, their models and the registry that holds them.

use crate::table::Table;
use crate::text::{copy_opt, copy_texts, opt_text, texts};
use vstd::prelude::*;

verus! {

/// The provider id under which the pool's virtual models are listed.
pub const POOL_PROVIDER: &'static str = "lunar";

/// How the pool weighs quality against speed.
#[derive(Debug, Clone, Copy, PartialEq, Eq, Structural)]
pub enum Strategy {
    Smart,
    Fast,
    Auto,
}

impl Strategy {
    pub open spec fn spec_name(self) -> Seq<char> {
        match self {
            Strategy::Smart => "smart"@,
            Strategy::Fast => "fast"@,
            Strategy::Auto => "auto"@,
        }
    }

    pub fn name(self) -> (s: &'static str)
        ensures
            s@ == self.spec_name(),
    {
        match self {
            Strategy::Smart => "smart",
            Strategy::Fast => "fast",
            Strategy::Auto => "auto",
        }
    }
}

/// What the pool knows of a free model: ranks out of a hundred, and the limits
/// per minute and per day on requests and tokens.
#[derive(Debug, Clone, Copy, PartialEq, Eq, Structural)]
pub struct PoolInfo {
    pub quality: u32,
    pub speed: u32,
    pub rpm: Option<u64>,
    pub rpd: Option<u64>,
    pub tpm: Option<u64>,
    pub tpd: Option<u64>,
}

impl Default for PoolInfo {
    fn default() -> (r: Self)
        ensures
            r == (PoolInfo { quality: 0, speed: 0, rpm: None, rpd: None, tpm: None, tpd: None }),
    {
        PoolInfo { quality: 0, speed: 0, rpm: None, rpd: None, tpm: None, tpd: None }
    }
}

#[derive(Debug)]
pub struct Model {
    pub provider_id: String,
    pub id: String,
    pub name: String,
    /// the id that the provider's API goes by
    pub api_id: String,
    pub npm: String,
    pub tool_call: bool,
    pub attachment: bool,
    /// the wire protocol, where one is known
    pub protocol: Option<String>,
    /// context window in tokens
    pub context: u64,
    /// input window in tokens, where it is limited apart from the context
    pub input: Option<u64>,
    /// the most tokens that one reply may take
    pub max_output: u64,
    pub variants: Vec<String>,
    pub pool: Option<PoolInfo>,
}

pub struct ModelView {
    pub provider_id: Seq<char>,
    pub id: Seq<char>,
    pub name: Seq<char>,
    pub api_id: Seq<char>,
    pub npm: Seq<char>,
    pub tool_call: bool,
    pub attachment: bool,
    pub protocol: Option<Seq<char>>,
    pub context: u64,
    pub input: Option<u64>,
    pub max_output: u64,
    pub variants: Seq<Seq<char>>,
    pub pool: Option<PoolInfo>,
}

impl View for Model {
    type V = ModelView;

    open spec fn view(&self) -> ModelView {
        ModelView {
            provider_id: self.provider_id@,
            id: self.id@,
            name: self.name@,
            api_id: self.api_id@,
            npm: self.npm@,
            tool_call: self.tool_call,
            attachment: self.attachment,
            protocol: opt_text(self.protocol),
            context: self.context,
            input: self.input,
            max_output: self.max_output,
            variants: texts(self.variants@),
            pool: self.pool,
        }
    }
}

impl Clone for Model {
    fn clone(&self) -> (r: Self)
        ensures
            r@ == self@,
    {
        Model {
            provider_id: self.provider_id.clone(),
            id: self.id.clone(),
            name: self.name.clone(),
            api_id: self.api_id.clone(),
            npm: self.npm.clone(),
            tool_call: self.tool_call,
            attachment: self.attachment,
            protocol: copy_opt(&self.protocol),
            context: self.context,
            input: self.input,
            max_output: self.max_output,
            variants: copy_texts(&self.variants),
            pool: self.pool,
        }
    }
}

impl ModelView {
    /// `provider/model`
    pub open spec fn key(self) -> Seq<char> {
        self.provider_id + "/"@ + self.id
    }
}

impl Model {
    /// `provider/model`
    pub fn key(&self) -> (k: String)
        ensures
            k@ == self@.key(),
    {
        let mut k = self.provider_id.clone();
        k.append("/");
        k.append(self.id.as_str());
        k
    }
}

pub struct Provider {
    pub id: String,
    pub name: String,
    /// where it is known from
    pub source: String,
    /// whether it can be called: a key is there, or none is needed
    pub connected: bool,
    pub models: Table<Model>,
}

pub struct ProviderView {
    pub id: Seq<char>,
    pub name: Seq<char>,
    pub source: Seq<char>,
    pub connected: bool,
    /// the models in the order of their keys
    pub models: Seq<(Seq<char>, ModelView)>,
}

impl View for Provider {
    type V = ProviderView;

    open spec fn view(&self) -> ProviderView {
        ProviderView {
            id: self.id@,
            name: self.name@,
            source: self.source@,
            connected: self.connected,
            models: self.models.entries(),
        }
    }
}

pub struct Registry {
    pub providers: Table<Provider>,
}

impl View for Registry {
    type V = Seq<(Seq<char>, ProviderView)>;

    open spec fn view(&self) -> Seq<(Seq<char>, ProviderView)> {
        self.providers.entries()
    }
}

impl Registry {
    /// The model listed under a provider and a model id.
    pub open spec fn found(&self, provider: Seq<char>, model: Seq<char>) -> Option<ModelView> {
        let reg = crate::table::as_map(self@);
        if reg.contains_key(provider) {
            let models = crate::table::as_map(reg[provider].models);
            if models.contains_key(model) {
                Some(models[model])
            } else {
                None
            }
        } else {
            None
        }
    }

    pub fn get(&self, provider: &str, model: &str) -> (r: Option<&Model>)
        ensures
            match r {
                Some(m) => self.found(provider@, model@) == Some(m@),
                None => self.found(provider@, model@) is None,
            },
    {
        match self.providers.get(provider) {
            Some(p) => p.models.get(model),
            None => None,
        }
    }
}

} // verus!
