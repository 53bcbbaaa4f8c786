//! The configuration that the load balancer works on.

use crate::metrics::{backend_key, compose_backend_key};
use vstd::prelude::*;
use vstd::string::*;

verus! {

/// How an upstream charges: per token (probing is free of charge) or per
/// request (only real traffic may be observed).
#[derive(Clone, Copy, Debug, PartialEq, Eq, Structural)]
pub enum BillingMode {
    PerToken,
    PerRequest,
}

/// Selection policy of a model mapping.
#[derive(Clone, Copy, Debug, PartialEq, Eq, Structural)]
pub enum LoadBalanceStrategy {
    WeightedRandom,
    RoundRobin,
    LeastLatency,
    Failover,
    Random,
    WeightedFailover,
    SmartWeightedFailover,
}

/// One provider offering one upstream model.
#[derive(Debug)]
pub struct Backend {
    pub provider: String,
    pub model: String,
    pub weight: u32,
    pub priority: u32,
    pub enabled: bool,
    pub tags: Vec<String>,
    pub billing_mode: BillingMode,
}

/// A backend as a plain value.
pub struct BackendView {
    pub provider: Seq<char>,
    pub model: Seq<char>,
    pub weight: u32,
    pub priority: u32,
    pub enabled: bool,
    pub tags: Seq<Seq<char>>,
    pub billing_mode: BillingMode,
}

impl View for Backend {
    type V = BackendView;

    open spec fn view(&self) -> BackendView {
        BackendView {
            provider: self.provider@,
            model: self.model@,
            weight: self.weight,
            priority: self.priority,
            enabled: self.enabled,
            tags: self.tags@.map_values(|t: String| t@),
            billing_mode: self.billing_mode,
        }
    }
}

/// Copies a list of strings.
pub fn copy_strings(list: &Vec<String>) -> (r: Vec<String>)
    ensures
        r@ == list@,
{
    let mut r: Vec<String> = Vec::new();
    let mut i: usize = 0;
    while i < list.len()
        invariant
            i <= list@.len(),
            r@ == list@.take(i as int),
        decreases list@.len() - i,
    {
        r.push(list[i].clone());
        assert(r@ =~= list@.take(i + 1));
        i += 1;
    }
    assert(list@.take(list@.len() as int) =~= list@);
    r
}

impl Clone for Backend {
    fn clone(&self) -> (r: Backend)
        ensures
            r@ == self@,
    {
        Backend {
            provider: self.provider.clone(),
            model: self.model.clone(),
            weight: self.weight,
            priority: self.priority,
            enabled: self.enabled,
            tags: copy_strings(&self.tags),
            billing_mode: self.billing_mode,
        }
    }
}

/// A logical model name with the backends that can serve it.
#[derive(Debug)]
pub struct ModelMapping {
    pub name: String,
    pub backends: Vec<Backend>,
    pub strategy: LoadBalanceStrategy,
    pub enabled: bool,
}


/// An upstream provider.
#[derive(Debug)]
pub struct Provider {
    pub name: String,
    pub base_url: String,
    pub api_key: String,
    pub models: Vec<String>,
    pub headers: Vec<(String, String)>,
    pub enabled: bool,
    pub timeout_seconds: u64,
    pub max_retries: u32,
}

/// A provider as a plain value.
pub struct ProviderView {
    pub name: Seq<char>,
    pub base_url: Seq<char>,
    pub api_key: Seq<char>,
    pub models: Seq<Seq<char>>,
    pub headers: Seq<(Seq<char>, Seq<char>)>,
    pub enabled: bool,
    pub timeout_seconds: u64,
    pub max_retries: u32,
}

impl View for Provider {
    type V = ProviderView;

    open spec fn view(&self) -> ProviderView {
        ProviderView {
            name: self.name@,
            base_url: self.base_url@,
            api_key: self.api_key@,
            models: self.models@.map_values(|m: String| m@),
            headers: self.headers@.map_values(|h: (String, String)| (h.0@, h.1@)),
            enabled: self.enabled,
            timeout_seconds: self.timeout_seconds,
            max_retries: self.max_retries,
        }
    }
}

/// Copies a list of pairs of strings.
pub fn copy_pairs(list: &Vec<(String, String)>) -> (r: Vec<(String, String)>)
    ensures
        r@ == list@,
{
    let mut r: Vec<(String, String)> = Vec::new();
    let mut i: usize = 0;
    while i < list.len()
        invariant
            i <= list@.len(),
            r@ == list@.take(i as int),
        decreases list@.len() - i,
    {
        r.push((list[i].0.clone(), list[i].1.clone()));
        assert(r@ =~= list@.take(i + 1));
        i += 1;
    }
    assert(list@.take(list@.len() as int) =~= list@);
    r
}

impl Clone for Provider {
    fn clone(&self) -> (r: Provider)
        ensures
            r@ == self@,
    {
        Provider {
            name: self.name.clone(),
            base_url: self.base_url.clone(),
            api_key: self.api_key.clone(),
            models: copy_strings(&self.models),
            headers: copy_pairs(&self.headers),
            enabled: self.enabled,
            timeout_seconds: self.timeout_seconds,
            max_retries: self.max_retries,
        }
    }
}

/// Settings that hold for every model.
#[derive(Clone, Copy, Debug)]
pub struct GlobalSettings {
    pub max_internal_retries: u32,
    pub health_check_interval_s: u64,
    pub recovery_check_interval_s: u64,
}

impl Default for GlobalSettings {
    fn default() -> (r: GlobalSettings)
        ensures
            r.max_internal_retries == 2,
            r.health_check_interval_s == 30,
            r.recovery_check_interval_s == 60,
    {
        GlobalSettings { max_internal_retries: 2, health_check_interval_s: 30, recovery_check_interval_s: 60 }
    }
}

/// A provider under its name in the configuration.
#[derive(Debug)]
pub struct ProviderEntry {
    pub key: String,
    pub provider: Provider,
}

/// A model mapping under its name in the configuration.
#[derive(Debug)]
pub struct ModelEntry {
    pub key: String,
    pub mapping: ModelMapping,
}

/// The whole configuration, delivered at once.
#[derive(Debug)]
pub struct Config {
    pub providers: Vec<ProviderEntry>,
    pub models: Vec<ModelEntry>,
    pub settings: GlobalSettings,
}

/// The rule that a configuration breaks.
#[derive(Clone, Copy, Debug, PartialEq, Eq, Structural)]
pub enum ConfigFault {
    /// A mapping's name differs from the name it is filed under.
    NameMismatch,
    /// A mapping has more backends than can be counted in 32 bits.
    TooManyBackends,
    /// A backend names a provider that is not configured.
    UnknownProvider,
    /// An enabled mapping has no enabled backend.
    NoEnabledBackend,
    /// A provider that an enabled backend of an enabled mapping names has an empty key.
    MissingApiKey,
    /// Two backends have the same key.
    DuplicateBackend,
}

/// A rejected configuration: the rule broken and the item that breaks it.
#[derive(Debug)]
pub struct ConfigError {
    pub fault: ConfigFault,
    pub item: String,
}

/// Whether a provider is configured under a name.
pub open spec fn has_provider(providers: Seq<ProviderEntry>, name: Seq<char>) -> bool {
    exists|k: int| 0 <= k < providers.len() && #[trigger] providers[k].key@ == name
}

/// Whether `k` is the first place where a provider is filed under a name.
pub open spec fn is_provider_at(providers: Seq<ProviderEntry>, name: Seq<char>, k: int) -> bool {
    &&& 0 <= k < providers.len()
    &&& providers[k].key@ == name
    &&& forall|e: int| 0 <= e < k ==> #[trigger] providers[e].key@ != name
}

/// Every backend of the mapping names a configured provider.
pub open spec fn providers_known(providers: Seq<ProviderEntry>, mapping: ModelMapping) -> bool {
    forall|j: int|
        0 <= j < mapping.backends@.len() ==> has_provider(
            providers,
            #[trigger] mapping.backends@[j].provider@,
        )
}

/// The mapping is disabled or has an enabled backend.
pub open spec fn served(mapping: ModelMapping) -> bool {
    mapping.enabled ==> exists|j: int|
        0 <= j < mapping.backends@.len() && #[trigger] mapping.backends@[j].enabled
}

/// The providers that the enabled backends of the mapping name have a key, if the mapping is enabled.
pub open spec fn keys_present(providers: Seq<ProviderEntry>, mapping: ModelMapping) -> bool {
    mapping.enabled ==> forall|j: int, k: int|
        0 <= j < mapping.backends@.len() && (#[trigger] mapping.backends@[j]).enabled && is_provider_at(
            providers,
            mapping.backends@[j].provider@,
            k,
        ) ==> (#[trigger] providers[k]).provider.api_key@.len() > 0
}

/// Whether the place `(a2, b2)` comes before the place `(a, b)`: in an
/// earlier mapping, or earlier in the same one.
pub open spec fn earlier(a2: int, b2: int, a: int, b: int) -> bool {
    a2 < a || (a2 == a && b2 < b)
}

/// The key of the backend `b` of the mapping `a`.
pub open spec fn key_at(models: Seq<ModelEntry>, a: int, b: int) -> Seq<char> {
    backend_key(models[a].mapping.backends@[b].provider@, models[a].mapping.backends@[b].model@)
}

/// No backend before the place `(a, b)` has the key of the backend there.
pub open spec fn fresh_at(models: Seq<ModelEntry>, a: int, b: int) -> bool {
    forall|a2: int, b2: int|
        0 <= a2 < models.len() && 0 <= b2 < models[a2].mapping.backends@.len() && earlier(a2, b2, a, b)
            ==> #[trigger] key_at(models, a2, b2) != key_at(models, a, b)
}

/// The first place in a list where a provider is filed under `name`.
pub fn find_provider_in(providers: &Vec<ProviderEntry>, name: &str) -> (r: Option<usize>)
    ensures
        match r {
            Some(k) => is_provider_at(providers@, name@, k as int),
            None => !has_provider(providers@, name@),
        },
{
    let wanted = String::from_str(name);
    let mut k: usize = 0;
    while k < providers.len()
        invariant
            wanted@ == name@,
            k <= providers@.len(),
            forall|e: int| 0 <= e < k ==> #[trigger] providers@[e].key@ != name@,
        decreases providers@.len() - k,
    {
        if providers[k].key == wanted {
            return Some(k);
        }
        k += 1;
    }
    None
}

impl Config {
    /// The mappings of the configuration, in their order.
    pub open spec fn mappings(&self) -> Seq<ModelMapping> {
        Seq::new(self.models@.len(), |i: int| self.models@[i].mapping)
    }

    /// Every mapping is filed under its own name.
    pub open spec fn names_match(&self) -> bool {
        forall|i: int|
            0 <= i < self.models@.len() ==> (#[trigger] self.models@[i]).key@
                == self.models@[i].mapping.name@
    }

    /// The backends of every mapping can be counted in 32 bits.
    pub open spec fn sizes_fit(&self) -> bool {
        forall|i: int|
            0 <= i < self.models@.len() ==> (#[trigger] self.models@[i]).mapping.backends@.len()
                <= u32::MAX
    }

    /// Every backend names a configured provider.
    pub open spec fn all_providers_known(&self) -> bool {
        forall|i: int|
            0 <= i < self.models@.len() ==> providers_known(
                self.providers@,
                (#[trigger] self.models@[i]).mapping,
            )
    }

    /// Every enabled mapping has an enabled backend.
    pub open spec fn all_served(&self) -> bool {
        forall|i: int| 0 <= i < self.models@.len() ==> served((#[trigger] self.models@[i]).mapping)
    }

    /// Every provider that an enabled backend of an enabled mapping names has a key.
    pub open spec fn all_keys_present(&self) -> bool {
        forall|i: int|
            0 <= i < self.models@.len() ==> keys_present(
                self.providers@,
                (#[trigger] self.models@[i]).mapping,
            )
    }

    /// No two backends, of one mapping or of two, have the same key.
    pub open spec fn backends_distinct(&self) -> bool {
        forall|a: int, b: int|
            0 <= a < self.models@.len() && 0 <= b < self.models@[a].mapping.backends@.len()
                ==> #[trigger] fresh_at(self.models@, a, b)
    }

    /// Whether the mapping at a place breaks a rule.
    pub open spec fn breaks_at(&self, fault: ConfigFault, i: int) -> bool {
        let mapping = self.models@[i].mapping;
        match fault {
            ConfigFault::NameMismatch => self.models@[i].key@ != mapping.name@,
            ConfigFault::TooManyBackends => mapping.backends@.len() > u32::MAX,
            ConfigFault::UnknownProvider => !providers_known(self.providers@, mapping),
            ConfigFault::NoEnabledBackend => !served(mapping),
            ConfigFault::MissingApiKey => !keys_present(self.providers@, mapping),
            ConfigFault::DuplicateBackend => !forall|b: int|
                0 <= b < mapping.backends@.len() ==> #[trigger] fresh_at(self.models@, i, b),
        }
    }

    /// Whether the mapping at a place is the first that breaks a rule.
    pub open spec fn first_break(&self, fault: ConfigFault, i: int) -> bool {
        &&& 0 <= i < self.models@.len()
        &&& self.breaks_at(fault, i)
        &&& forall|e: int| 0 <= e < i ==> !self.breaks_at(fault, e)
    }

    /// The first rule, in the order of [`ConfigFault`], that the configuration breaks.
    pub open spec fn fault(&self) -> Option<ConfigFault> {
        if !self.names_match() {
            Some(ConfigFault::NameMismatch)
        } else if !self.sizes_fit() {
            Some(ConfigFault::TooManyBackends)
        } else if !self.all_providers_known() {
            Some(ConfigFault::UnknownProvider)
        } else if !self.all_served() {
            Some(ConfigFault::NoEnabledBackend)
        } else if !self.all_keys_present() {
            Some(ConfigFault::MissingApiKey)
        } else if !self.backends_distinct() {
            Some(ConfigFault::DuplicateBackend)
        } else {
            None
        }
    }

    /// The configuration breaks no rule.
    pub open spec fn valid(&self) -> bool {
        self.fault() is None
    }

    /// The first place where a provider is filed under `name`.
    pub fn find_provider(&self, name: &str) -> (r: Option<usize>)
        ensures
            match r {
                Some(k) => is_provider_at(self.providers@, name@, k as int),
                None => !has_provider(self.providers@, name@),
            },
    {
        find_provider_in(&self.providers, name)
    }

    /// The provider configured under `name`.
    pub fn get_provider(&self, name: &str) -> (r: Option<&Provider>)
        ensures
            match r {
                Some(p) => exists|k: int|
                    is_provider_at(self.providers@, name@, k) && *p == self.providers@[k].provider,
                None => !has_provider(self.providers@, name@),
            },
    {
        match self.find_provider(name) {
            Some(k) => Some(&self.providers[k].provider),
            None => None,
        }
    }

    fn check_providers_known(&self, i: usize) -> (ok: bool)
        requires
            i < self.models@.len(),
        ensures
            ok == providers_known(self.providers@, self.models@[i as int].mapping),
    {
        let mapping = &self.models[i].mapping;
        let mut j: usize = 0;
        while j < mapping.backends.len()
            invariant
                i < self.models@.len(),
                mapping == &self.models@[i as int].mapping,
                j <= mapping.backends@.len(),
                forall|e: int|
                    0 <= e < j ==> has_provider(self.providers@, #[trigger] mapping.backends@[e].provider@),
            decreases mapping.backends@.len() - j,
        {
            if self.find_provider(mapping.backends[j].provider.as_str()).is_none() {
                return false;
            }
            j += 1;
        }
        true
    }

    fn check_served(&self, i: usize) -> (ok: bool)
        requires
            i < self.models@.len(),
        ensures
            ok == served(self.models@[i as int].mapping),
    {
        let mapping = &self.models[i].mapping;
        if !mapping.enabled {
            return true;
        }
        let mut j: usize = 0;
        while j < mapping.backends.len()
            invariant
                i < self.models@.len(),
                mapping == &self.models@[i as int].mapping,
                j <= mapping.backends@.len(),
                forall|e: int| 0 <= e < j ==> !(#[trigger] mapping.backends@[e]).enabled,
            decreases mapping.backends@.len() - j,
        {
            if mapping.backends[j].enabled {
                return true;
            }
            j += 1;
        }
        false
    }

    fn check_keys_present(&self, i: usize) -> (ok: bool)
        requires
            i < self.models@.len(),
        ensures
            ok == keys_present(self.providers@, self.models@[i as int].mapping),
    {
        let mapping = &self.models[i].mapping;
        if !mapping.enabled {
            return true;
        }
        let mut j: usize = 0;
        while j < mapping.backends.len()
            invariant
                i < self.models@.len(),
                mapping == &self.models@[i as int].mapping,
                j <= mapping.backends@.len(),
                mapping.enabled,
                forall|e: int, k: int|
                    0 <= e < j && (#[trigger] mapping.backends@[e]).enabled && is_provider_at(
                        self.providers@,
                        mapping.backends@[e].provider@,
                        k,
                    ) ==> (#[trigger] self.providers@[k]).provider.api_key@.len() > 0,
            decreases mapping.backends@.len() - j,
        {
            if mapping.backends[j].enabled {
                match self.find_provider(mapping.backends[j].provider.as_str()) {
                    Some(k) => {
                        if self.providers[k].provider.api_key.as_str().unicode_len() == 0 {
                            proof {
                                let m = self.models@[i as int].mapping;
                                assert(m.enabled);
                                assert(m.backends@[j as int].enabled);
                                assert(is_provider_at(
                                    self.providers@,
                                    m.backends@[j as int].provider@,
                                    k as int,
                                ));
                                assert(self.providers@[k as int].provider.api_key@.len() == 0);
                                assert(!keys_present(self.providers@, m));
                            }
                            return false;
                        }
                    },
                    None => {},
                }
            }
            j += 1;
        }
        true
    }

    fn key_free_in(&self, a2: usize, upto: usize, key: &String) -> (r: bool)
        requires
            a2 < self.models@.len(),
            upto <= self.models@[a2 as int].mapping.backends@.len(),
        ensures
            r == forall|b2: int| 0 <= b2 < upto ==> #[trigger] key_at(self.models@, a2 as int, b2) != key@,
    {
        let backends = &self.models[a2].mapping.backends;
        let mut b2: usize = 0;
        while b2 < upto
            invariant
                a2 < self.models@.len(),
                backends == &self.models@[a2 as int].mapping.backends,
                b2 <= upto <= backends@.len(),
                forall|e: int| 0 <= e < b2 ==> #[trigger] key_at(self.models@, a2 as int, e) != key@,
            decreases upto - b2,
        {
            let other = compose_backend_key(backends[b2].provider.as_str(), backends[b2].model.as_str());
            if other == *key {
                assert(key_at(self.models@, a2 as int, b2 as int) == key@);
                return false;
            }
            b2 += 1;
        }
        true
    }

    fn check_fresh(&self, a: usize, b: usize) -> (r: bool)
        requires
            a < self.models@.len(),
            b < self.models@[a as int].mapping.backends@.len(),
        ensures
            r == fresh_at(self.models@, a as int, b as int),
    {
        let backend = &self.models[a].mapping.backends[b];
        let key = compose_backend_key(backend.provider.as_str(), backend.model.as_str());
        assert(key@ == key_at(self.models@, a as int, b as int));
        let mut a2: usize = 0;
        while a2 < a
            invariant
                a < self.models@.len(),
                b < self.models@[a as int].mapping.backends@.len(),
                key@ == key_at(self.models@, a as int, b as int),
                a2 <= a,
                forall|e: int, b2: int|
                    0 <= e < a2 && 0 <= b2 < self.models@[e].mapping.backends@.len() ==> #[trigger] key_at(
                        self.models@,
                        e,
                        b2,
                    ) != key@,
            decreases a - a2,
        {
            if !self.key_free_in(a2, self.models[a2].mapping.backends.len(), &key) {
                return false;
            }
            a2 += 1;
        }
        self.key_free_in(a, b, &key)
    }

    fn check_distinct(&self, a: usize) -> (r: bool)
        requires
            a < self.models@.len(),
        ensures
            r == forall|b: int|
                0 <= b < self.models@[a as int].mapping.backends@.len() ==> #[trigger] fresh_at(
                    self.models@,
                    a as int,
                    b,
                ),
    {
        let mut b: usize = 0;
        while b < self.models[a].mapping.backends.len()
            invariant
                a < self.models@.len(),
                b <= self.models@[a as int].mapping.backends@.len(),
                forall|e: int| 0 <= e < b ==> #[trigger] fresh_at(self.models@, a as int, e),
            decreases self.models@[a as int].mapping.backends@.len() - b,
        {
            if !self.check_fresh(a, b) {
                return false;
            }
            b += 1;
        }
        true
    }

    /// Checks the configuration against the rules, in the order of
    /// [`ConfigFault`]; an error names the first rule broken and the first
    /// mapping that breaks it.
    #[verifier::loop_isolation(false)]
    pub fn validate(&self) -> (r: Result<(), ConfigError>)
        ensures
            match r {
                Ok(_) => self.valid(),
                Err(e) => self.fault() == Some(e.fault) && exists|i: int|
                    self.first_break(e.fault, i) && e.item@ == (#[trigger] self.models@[i]).key@,
            },
    {
        let mut i: usize = 0;
        while i < self.models.len()
            invariant
                i <= self.models@.len(),
                forall|e: int|
                    0 <= e < i ==> (#[trigger] self.models@[e]).key@ == self.models@[e].mapping.name@,
            decreases self.models@.len() - i,
        {
            if !(self.models[i].key == self.models[i].mapping.name) {
                assert(self.first_break(ConfigFault::NameMismatch, i as int));
                return Err(ConfigError { fault: ConfigFault::NameMismatch, item: self.models[i].key.clone() });
            }
            i += 1;
        }
        i = 0;
        while i < self.models.len()
            invariant
                i <= self.models@.len(),
                forall|e: int|
                    0 <= e < i ==> (#[trigger] self.models@[e]).mapping.backends@.len() <= u32::MAX,
            decreases self.models@.len() - i,
        {
            if self.models[i].mapping.backends.len() > 0xffff_ffff {
                assert(self.first_break(ConfigFault::TooManyBackends, i as int));
                return Err(
                    ConfigError { fault: ConfigFault::TooManyBackends, item: self.models[i].key.clone() },
                );
            }
            i += 1;
        }
        i = 0;
        while i < self.models.len()
            invariant
                i <= self.models@.len(),
                forall|e: int|
                    0 <= e < i ==> providers_known(self.providers@, (#[trigger] self.models@[e]).mapping),
            decreases self.models@.len() - i,
        {
            if !self.check_providers_known(i) {
                assert(self.first_break(ConfigFault::UnknownProvider, i as int));
                return Err(
                    ConfigError { fault: ConfigFault::UnknownProvider, item: self.models[i].key.clone() },
                );
            }
            i += 1;
        }
        i = 0;
        while i < self.models.len()
            invariant
                i <= self.models@.len(),
                forall|e: int| 0 <= e < i ==> served((#[trigger] self.models@[e]).mapping),
            decreases self.models@.len() - i,
        {
            if !self.check_served(i) {
                assert(self.first_break(ConfigFault::NoEnabledBackend, i as int));
                return Err(
                    ConfigError { fault: ConfigFault::NoEnabledBackend, item: self.models[i].key.clone() },
                );
            }
            i += 1;
        }
        i = 0;
        while i < self.models.len()
            invariant
                i <= self.models@.len(),
                forall|e: int|
                    0 <= e < i ==> keys_present(self.providers@, (#[trigger] self.models@[e]).mapping),
            decreases self.models@.len() - i,
        {
            if !self.check_keys_present(i) {
                assert(self.first_break(ConfigFault::MissingApiKey, i as int));
                return Err(
                    ConfigError { fault: ConfigFault::MissingApiKey, item: self.models[i].key.clone() },
                );
            }
            i += 1;
        }
        i = 0;
        while i < self.models.len()
            invariant
                i <= self.models@.len(),
                forall|a: int, b: int|
                    0 <= a < i && 0 <= b < self.models@[a].mapping.backends@.len() ==> #[trigger] fresh_at(
                        self.models@,
                        a,
                        b,
                    ),
            decreases self.models@.len() - i,
        {
            if !self.check_distinct(i) {
                assert(self.first_break(ConfigFault::DuplicateBackend, i as int));
                return Err(
                    ConfigError { fault: ConfigFault::DuplicateBackend, item: self.models[i].key.clone() },
                );
            }
            i += 1;
        }
        Ok(())
    }
}

} // verus!
