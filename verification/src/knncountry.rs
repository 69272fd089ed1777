//! The country router: one KNN service per country code, with `XX` as the
//! reserved fallback.
//!
//! Loading from disk is done by the unverified edge, which installs the
//! finished service here; routing, the fallback rule and the country
//! listing are verified.

use vstd::prelude::*;
use vstd::string::StringExecFns;
use crate::knnservice::{KnnService, Model};

verus! {

/// Where a deployment keeps its indices and models, and which models each
/// country gets.
#[derive(Clone)]
pub struct KnnCountryConfig {
    /// The root under which per-country index directories live.
    pub indices_root_path: String,
    /// The models to register for every loaded country.
    pub models: Vec<Model>,
    /// The platform segment of the on-disk layout.
    pub platform: String,
    /// The embedding-version segment of the on-disk layout.
    pub version: String,
}

/// The service installed under a country code, if any.
pub open spec fn spec_find_service(
    countries: Seq<(String, KnnService)>,
    name: Seq<char>,
) -> Option<KnnService>
    decreases countries.len(),
{
    if countries.len() == 0 {
        None
    } else if countries[0].0@ == name {
        Some(countries[0].1)
    } else {
        spec_find_service(countries.drop_first(), name)
    }
}

/// Installing a country overwrites its first entry, or appends.
pub open spec fn spec_service_insert(
    countries: Seq<(String, KnnService)>,
    name: String,
    s: KnnService,
) -> Seq<(String, KnnService)>
    decreases countries.len(),
{
    if countries.len() == 0 {
        Seq::empty().push((name, s))
    } else if countries[0].0@ == name@ {
        seq![(name, s)] + countries.drop_first()
    } else {
        seq![countries[0]] + spec_service_insert(countries.drop_first(), name, s)
    }
}

/// The router: a service per loaded country code.
pub struct KnnByCountry {
    /// The deployment layout and model list.
    pub config: KnnCountryConfig,
    /// The loaded services, in installation order.
    pub countries: Vec<(String, KnnService)>,
}

impl KnnByCountry {
    /// Every installed service is well formed.
    pub open spec fn wf(&self) -> bool {
        forall|i: int| 0 <= i < self.countries@.len() ==> (#[trigger] self.countries@[i]).1.wf()
    }

    /// A router with no countries loaded.
    pub fn new(config: KnnCountryConfig) -> (r: KnnByCountry)
        ensures
            r.config == config,
            r.countries@ == Seq::<(String, KnnService)>::empty(),
            r.wf(),
    {
        KnnByCountry { config, countries: Vec::new() }
    }

    /// The index directory of one country:
    /// `{root}/{platform}/{version}/country={code}`.
    pub fn indice_path(&self, country: &str) -> (r: String)
        ensures
            r@ == self.config.indices_root_path@ + "/"@ + self.config.platform@ + "/"@
                + self.config.version@ + "/country="@ + country@,
    {
        proof {
            reveal_strlit("/");
            reveal_strlit("/country=");
        }
        let mut s = String::new();
        s.append(self.config.indices_root_path.as_str());
        s.append("/");
        s.append(self.config.platform.as_str());
        s.append("/");
        s.append(self.config.version.as_str());
        s.append("/country=");
        s.append(country);
        proof {
            assert(s@ =~= self.config.indices_root_path@ + "/"@ + self.config.platform@ + "/"@
                + self.config.version@ + "/country="@ + country@);
        }
        s
    }

    /// The model directory of one configured model for one country:
    /// `{model-root}/{platform}/{version}/country={code}`.  A model with no
    /// root or no version has no directory to resolve; such a model is not
    /// loadable from disk and is skipped rather than failing the load.
    pub fn model_path(&self, model: &Model, country: &str) -> (r: Option<String>)
        ensures
            match (model.model_path, model.version) {
                (Some(root), Some(v)) => r matches Some(p) && p@ == root@ + "/"@
                    + self.config.platform@ + "/"@ + v@ + "/country="@ + country@,
                _ => r is None,
            },
    {
        proof {
            reveal_strlit("/");
            reveal_strlit("/country=");
        }
        let root = match &model.model_path {
            Some(root) => root,
            None => return None,
        };
        let version = match &model.version {
            Some(v) => v,
            None => return None,
        };
        let mut s = String::new();
        s.append(root.as_str());
        s.append("/");
        s.append(self.config.platform.as_str());
        s.append("/");
        s.append(version.as_str());
        s.append("/country=");
        s.append(country);
        proof {
            assert(s@ =~= model.model_path->Some_0@ + "/"@ + self.config.platform@ + "/"@
                + model.version->Some_0@ + "/country="@ + country@);
        }
        Some(s)
    }

    /// Installs the service loaded for a country, replacing an earlier one
    /// under the same code.
    pub fn install_service(&mut self, country: String, service: KnnService)
        requires
            old(self).wf(),
            service.wf(),
        ensures
            final(self).wf(),
            final(self).config == old(self).config,
            final(self).countries@ == spec_service_insert(old(self).countries@, country, service),
    {
        let key: String = country;
        let ghost before = self.countries@;
        let mut pos: usize = 0;
        let mut found = false;
        while pos < self.countries.len() && !found
            invariant
                self.countries@ == before,
                pos <= before.len(),
                forall|j: int| 0 <= j < pos ==> (#[trigger] before[j]).0@ != key@,
                found ==> pos < before.len() && before[pos as int].0@ == key@,
            decreases before.len() - pos + if found { 0int } else { 1int },
        {
            if self.countries[pos].0.eq(&key) {
                found = true;
            } else {
                pos = pos + 1;
            }
        }
        if found {
            let _ = self.countries.remove(pos);
            self.countries.insert(pos, (key, service));
            proof {
                lemma_service_insert_at(before, self.countries@[pos as int].0, service, pos as int);
                assert(self.countries@ =~= spec_service_insert(
                    before,
                    self.countries@[pos as int].0,
                    service,
                ));
            }
        } else {
            self.countries.push((key, service));
            proof {
                lemma_service_insert_missing(before, self.countries@.last().0, service);
                assert(self.countries@ =~= spec_service_insert(
                    before,
                    self.countries@.last().0,
                    service,
                ));
            }
        }
    }

    /// The service for a country code, falling back to the `XX` service
    /// when the code is unknown.
    pub fn get_service(&self, country: &str) -> (r: Option<&KnnService>)
        ensures
            match spec_find_service(self.countries@, country@) {
                Some(s) => r matches Some(f) && *f == s,
                None => match spec_find_service(self.countries@, "XX"@) {
                    Some(s) => r matches Some(f) && *f == s,
                    None => r is None,
                },
            },
    {
        match self.find_service(country) {
            Some(s) => Some(s),
            None => self.find_service("XX"),
        }
    }

    /// The service installed under exactly this code.
    fn find_service(&self, country: &str) -> (r: Option<&KnnService>)
        ensures
            match spec_find_service(self.countries@, country@) {
                Some(s) => r matches Some(f) && *f == s,
                None => r is None,
            },
    {
        let key: String = country.to_owned();
        let mut i: usize = 0;
        while i < self.countries.len()
            invariant
                key@ == country@,
                i <= self.countries@.len(),
                forall|j: int| 0 <= j < i ==> (#[trigger] self.countries@[j]).0@ != country@,
            decreases self.countries@.len() - i,
        {
            if self.countries[i].0.eq(&key) {
                proof {
                    lemma_find_service_skip(self.countries@, country@, i as int);
                    assert(self.countries@.skip(i as int)[0] == self.countries@[i as int]);
                }
                return Some(&self.countries[i].1);
            }
            i = i + 1;
        }
        proof {
            lemma_find_service_skip(self.countries@, country@, self.countries@.len() as int);
            assert(self.countries@.skip(self.countries@.len() as int) =~= Seq::<
                (String, KnnService),
            >::empty());
        }
        None
    }

    /// The loaded country codes, in installation order.
    pub fn get_countries(&self) -> (r: Vec<String>)
        ensures
            r@.len() == self.countries@.len(),
            forall|i: int| 0 <= i < r@.len() ==> r@[i]@ == (#[trigger] self.countries@[i]).0@,
    {
        let mut out: Vec<String> = Vec::new();
        let mut i: usize = 0;
        while i < self.countries.len()
            invariant
                i <= self.countries@.len(),
                out@.len() == i,
                forall|j: int| 0 <= j < i ==> out@[j]@ == (#[trigger] self.countries@[j]).0@,
            decreases self.countries@.len() - i,
        {
            out.push(self.countries[i].0.clone());
            i = i + 1;
        }
        out
    }
}

/// A lookup passes over every entry with a different code.
pub proof fn lemma_find_service_skip(countries: Seq<(String, KnnService)>, name: Seq<char>, i: int)
    requires
        0 <= i <= countries.len(),
        forall|j: int| 0 <= j < i ==> (#[trigger] countries[j]).0@ != name,
    ensures
        spec_find_service(countries, name) == spec_find_service(countries.skip(i), name),
    decreases i,
{
    if i > 0 {
        assert(countries[0].0@ != name);
        assert(spec_find_service(countries, name) == spec_find_service(
            countries.drop_first(),
            name,
        ));
        assert(countries.drop_first() =~= countries.skip(1));
        assert forall|j: int| 0 <= j < i - 1 implies (#[trigger] countries.skip(1)[j]).0@
            != name by {
            assert(countries.skip(1)[j] == countries[j + 1]);
        }
        lemma_find_service_skip(countries.skip(1), name, i - 1);
        assert(countries.skip(1).skip(i - 1) =~= countries.skip(i));
    } else {
        assert(countries.skip(0) =~= countries);
    }
}

/// Replacing the first entry carrying the code is what installation does
/// when the code is present at position `pos`.
pub proof fn lemma_service_insert_at(
    countries: Seq<(String, KnnService)>,
    name: String,
    s: KnnService,
    pos: int,
)
    requires
        0 <= pos < countries.len(),
        countries[pos].0@ == name@,
        forall|j: int| 0 <= j < pos ==> (#[trigger] countries[j]).0@ != name@,
    ensures
        spec_service_insert(countries, name, s) == countries.remove(pos).insert(pos, (name, s)),
    decreases pos,
{
    if pos == 0 {
        assert(spec_service_insert(countries, name, s) =~= countries.remove(0).insert(
            0,
            (name, s),
        ));
    } else {
        assert(countries[0].0@ != name@);
        assert forall|j: int| 0 <= j < pos - 1 implies (
        #[trigger] countries.drop_first()[j]).0@ != name@ by {
            assert(countries.drop_first()[j] == countries[j + 1]);
        }
        assert(countries.drop_first()[pos - 1] == countries[pos]);
        lemma_service_insert_at(countries.drop_first(), name, s, pos - 1);
        assert(spec_service_insert(countries, name, s) =~= countries.remove(pos).insert(
            pos,
            (name, s),
        ));
    }
}

/// Appending is what installation does when the code is absent.
pub proof fn lemma_service_insert_missing(
    countries: Seq<(String, KnnService)>,
    name: String,
    s: KnnService,
)
    requires
        forall|j: int| 0 <= j < countries.len() ==> (#[trigger] countries[j]).0@ != name@,
    ensures
        spec_service_insert(countries, name, s) == countries.push((name, s)),
    decreases countries.len(),
{
    if countries.len() == 0 {
        assert(spec_service_insert(countries, name, s) =~= countries.push((name, s)));
    } else {
        assert forall|j: int| 0 <= j < countries.drop_first().len() implies (
        #[trigger] countries.drop_first()[j]).0@ != name@ by {
            assert(countries.drop_first()[j] == countries[j + 1]);
        }
        lemma_service_insert_missing(countries.drop_first(), name, s);
        assert(spec_service_insert(countries, name, s) =~= countries.push((name, s)));
    }
}

} // verus!
