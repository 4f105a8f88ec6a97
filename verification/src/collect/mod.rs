//! Registering metric sources with collectors.

pub mod periodic;
pub mod timer;

use crate::error;
use crate::error::Error;
use crate::model;
use crate::model::NameIdentity;
use crate::observe::{MetricSource, Mode};
use std::sync::Arc;
use vstd::prelude::*;

verus! {

/// What a result without a value holds.
pub open spec fn unit_view(result: Result<(), Error>) -> Result<(), error::ErrorView> {
    match result {
        Ok(()) => Ok(()),
        Err(error) => Err(error@),
    }
}

/// A collector that can take part in a [`Collection`].
///
/// [`Collection::add`] hands every collector of the tuple the source together with the observation
/// mode requested at registration. Collectors that push build an observer reporting in that mode;
/// collectors that are read (such as the one for Prometheus) keep the source itself and read its
/// current state on demand. The mode only describes how observers report, so they ignore it.
pub trait AddSource<Src>: Sized {
    /// Whether `after` is the collector after it was handed the source, with this result. What is
    /// promised is up to the collector.
    open spec fn accepted(
        self,
        source: Src,
        mode: Mode,
        result: Result<(), error::ErrorView>,
        after: Self,
    ) -> bool {
        true
    }

    fn add_source(&mut self, source: &Src, mode: Mode) -> (r: Result<(), Error>)
        ensures
            old(self).accepted(*source, mode, unit_view(r), *final(self)),
    ;
}

/// Collectors that are registered with together.
pub trait CollectorTuple {
    /// How many they are.
    const LEN: usize;
}

/// Hands a source to every collector of a tuple in turn, up to the first that refuses it.
pub trait RegisterAll<Src>: Sized {
    /// Whether `after` are the collectors after they were handed the source, with this result.
    spec fn registered(
        self,
        source: Src,
        mode: Mode,
        result: Result<(), error::ErrorView>,
        after: Self,
    ) -> bool;

    fn register_all(&mut self, source: &Src, mode: Mode) -> (r: Result<(), Error>)
        ensures
            old(self).registered(*source, mode, unit_view(r), *final(self)),
    ;
}

/// A source that can be handed out again and again.
pub trait Handle: Sized {
    /// A second handle to the same source.
    fn share(&self) -> (r: Self)
        ensures
            r == *self,
    ;
}

impl<T> Handle for Arc<T> {
    fn share(&self) -> (r: Arc<T>) {
        model::share(self)
    }
}

/// A source that can be registered: it bears an identity, and a number that tells the types of sources
/// apart.
pub trait Registrable: Handle {
    spec fn identity(&self) -> model::NameIdentityView;

    spec fn type_number(&self) -> u64;

    fn id(&self) -> (r: Arc<NameIdentity>)
        ensures
            r@ == self.identity(),
    ;

    fn type_key(&self) -> (r: u64)
        ensures
            r == self.type_number(),
    ;
}

/// Sources behind pointers to metrics of one type are all of that type.
impl<M: MetricSource> Registrable for Arc<M> {
    open spec fn identity(&self) -> model::NameIdentityView {
        (**self).identity()
    }

    open spec fn type_number(&self) -> u64 {
        0
    }

    fn id(&self) -> (r: Arc<NameIdentity>) {
        model::share(MetricSource::id(&**self))
    }

    fn type_key(&self) -> (r: u64) {
        0
    }
}

/// What a source is registered under.
#[derive(Debug)]
struct RegistryKey {
    id: Arc<NameIdentity>,
    type_key: u64,
}

struct RegistryEntry<Src> {
    key: RegistryKey,
    mode: Mode,
    source: Src,
}

/// A registration.
#[verifier::ext_equal]
pub ghost struct EntryView<Src> {
    pub id: model::NameIdentityView,
    pub type_key: u64,
    pub mode: Mode,
    pub source: Src,
}

impl<Src> View for RegistryEntry<Src> {
    type V = EntryView<Src>;

    closed spec fn view(&self) -> EntryView<Src> {
        EntryView {
            id: self.key.id@,
            type_key: self.key.type_key,
            mode: self.mode,
            source: self.source,
        }
    }
}

/// Collectors, and the sources that were registered with them.
pub struct Collection<C, Src> {
    collectors: C,
    registry: Vec<RegistryEntry<Src>>,
}

#[verifier::ext_equal]
pub ghost struct CollectionView<C, Src> {
    pub collectors: C,
    pub registry: Seq<EntryView<Src>>,
}

impl<C, Src> View for Collection<C, Src> {
    type V = CollectionView<C, Src>;

    closed spec fn view(&self) -> CollectionView<C, Src> {
        CollectionView {
            collectors: self.collectors,
            registry: self.registry@.map_values(|entry: RegistryEntry<Src>| entry@),
        }
    }
}

/// The position of the registration of an identity and a type of source.
pub open spec fn registration<Src>(
    registry: Seq<EntryView<Src>>,
    id: model::NameIdentityView,
    type_key: u64,
) -> Option<int>
    decreases registry.len(),
{
    if registry.len() == 0 {
        None
    } else if registry.last().id == id && registry.last().type_key == type_key {
        Some(registry.len() - 1)
    } else {
        registration(registry.drop_last(), id, type_key)
    }
}

impl<C, Src> Collection<C, Src> {
    pub fn new(collectors: C) -> (r: Collection<C, Src>)
        ensures
            r@ == (CollectionView { collectors, registry: Seq::<EntryView<Src>>::empty() }),
    {
        let r = Collection { collectors, registry: Vec::new() };
        assert(r@.registry =~= Seq::<EntryView<Src>>::empty());
        r
    }

    pub fn collectors(&self) -> (r: &C)
        ensures
            *r == self@.collectors,
    {
        &self.collectors
    }

    /// The collectors, to be changed in their place.
    pub fn collectors_mut(&mut self) -> (r: &mut C)
        ensures
            *r == old(self)@.collectors,
            final(self)@ == (CollectionView { collectors: *final(r), ..old(self)@ }),
    {
        &mut self.collectors
    }

    /// The position of the registration of an identity and a type of source.
    fn find(&self, id: &NameIdentity, type_key: u64) -> (r: Option<usize>)
        ensures
            match r {
                Some(i) => registration(self@.registry, id@, type_key) == Some(i as int) && i
                    < self.registry@.len(),
                None => registration(self@.registry, id@, type_key) is None,
            },
    {
        let ghost all = self@.registry;
        let mut left: usize = self.registry.len();
        assert(all.take(left as int) =~= all);
        while left > 0
            invariant
                left <= self.registry@.len(),
                all == self@.registry,
                registration(all, id@, type_key) == registration(all.take(left as int), id@, type_key),
            decreases left,
        {
            assert(all.take(left as int).last() == self.registry@[left - 1]@);
            assert(all.take(left as int).drop_last() =~= all.take(left - 1));
            let entry = &self.registry[left - 1];
            if *entry.key.id == *id && entry.key.type_key == type_key {
                return Some(left - 1);
            }
            left = left - 1;
        }
        None
    }
}

impl<C: CollectorTuple + RegisterAll<Src>, Src: Registrable> Collection<C, Src> {
    /// Registers a source with every collector. Where a source of the same identity and type was
    /// registered before, that one is handed out again; under another mode that is an error. A source
    /// can be drained by one collector only.
    pub fn add(&mut self, source: Src, mode: Mode) -> (r: Result<Src, Error>)
        ensures
            if mode is Destructive && C::LEN != 1 {
                &&& r is Err && r->Err_0@ == error::ErrorView::DestructiveWithMultipleCollectors
                &&& final(self)@ == old(self)@
            } else {
                match registration(old(self)@.registry, source.identity(), source.type_number()) {
                    Some(i) => {
                        let entry = old(self)@.registry[i];
                        &&& final(self)@ == old(self)@
                        &&& entry.mode != mode ==> r is Err && r->Err_0@ == error::ErrorView::ModeMismatch
                        &&& entry.mode == mode ==> r == Ok::<Src, Error>(entry.source)
                    },
                    None => {
                        &&& old(self)@.collectors.registered(
                            source,
                            mode,
                            match r {
                                Ok(_) => Ok(()),
                                Err(error) => Err(error@),
                            },
                            final(self)@.collectors,
                        )
                        &&& match r {
                            Ok(registered) => registered == source && final(self)@.registry
                                == old(self)@.registry.push(
                                EntryView {
                                    id: source.identity(),
                                    type_key: source.type_number(),
                                    mode,
                                    source,
                                },
                            ),
                            Err(_) => final(self)@.registry == old(self)@.registry,
                        }
                    },
                }
            },
    {
        if mode == Mode::Destructive && C::LEN != 1 {
            return Err(Error::DestructiveWithMultipleCollectors);
        }
        let key = RegistryKey { id: source.id(), type_key: source.type_key() };
        if let Some(i) = self.find(&key.id, key.type_key) {
            let entry = &self.registry[i];
            assert(self@.registry[i as int] == entry@);
            if entry.mode != mode {
                return Err(Error::ModeMismatch);
            }
            return Ok(entry.source.share());
        }
        if let Err(error) = self.collectors.register_all(&source, mode) {
            return Err(error);
        }
        let ghost before = self@.registry;
        let entry = RegistryEntry { key, mode, source: source.share() };
        self.registry.push(entry);
        assert(self@.registry =~= before.push(entry@));
        Ok(source)
    }
}

/// A source that was registered is found again under its identity and type, and nothing else is found
/// in its place.
pub proof fn registrations_are_found<Src>(
    registry: Seq<EntryView<Src>>,
    entry: EntryView<Src>,
    id: model::NameIdentityView,
    type_key: u64,
)
    ensures
        registration(registry.push(entry), entry.id, entry.type_key) == Some(registry.len() as int),
        id != entry.id || type_key != entry.type_key ==> registration(registry.push(entry), id, type_key)
            == registration(registry, id, type_key),
{
    assert(registry.push(entry).drop_last() =~= registry);
}

impl<A> CollectorTuple for (A,) {
    const LEN: usize = 1;
}

impl<Src, A: AddSource<Src>> RegisterAll<Src> for (A,) {
    open spec fn registered(
        self,
        source: Src,
        mode: Mode,
        result: Result<(), error::ErrorView>,
        after: Self,
    ) -> bool {
        ||| {
            &&& result is Err
            &&& self.0.accepted(source, mode, result, after.0)
        }
        ||| {
            &&& result is Ok
            &&& self.0.accepted(source, mode, Ok::<(), error::ErrorView>(()), after.0)
        }
    }

    fn register_all(&mut self, source: &Src, mode: Mode) -> (r: Result<(), Error>) {
        self.0.add_source(source, mode)
    }
}

impl<A, B> CollectorTuple for (A, B) {
    const LEN: usize = 2;
}

impl<Src, A: AddSource<Src>, B: AddSource<Src>> RegisterAll<Src> for (A, B) {
    open spec fn registered(
        self,
        source: Src,
        mode: Mode,
        result: Result<(), error::ErrorView>,
        after: Self,
    ) -> bool {
        ||| {
            &&& result is Err
            &&& self.0.accepted(source, mode, result, after.0)
            &&& after.1 == self.1
        }
        ||| {
            &&& result is Err
            &&& self.0.accepted(source, mode, Ok::<(), error::ErrorView>(()), after.0)
            &&& self.1.accepted(source, mode, result, after.1)
        }
        ||| {
            &&& result is Ok
            &&& self.0.accepted(source, mode, Ok::<(), error::ErrorView>(()), after.0)
            &&& self.1.accepted(source, mode, Ok::<(), error::ErrorView>(()), after.1)
        }
    }

    fn register_all(&mut self, source: &Src, mode: Mode) -> (r: Result<(), Error>) {
        if let Err(error) = self.0.add_source(source, mode) {
            return Err(error);
        }
        self.1.add_source(source, mode)
    }
}

impl<A, B, C> CollectorTuple for (A, B, C) {
    const LEN: usize = 3;
}

impl<Src, A: AddSource<Src>, B: AddSource<Src>, C: AddSource<Src>> RegisterAll<Src> for (A, B, C) {
    open spec fn registered(
        self,
        source: Src,
        mode: Mode,
        result: Result<(), error::ErrorView>,
        after: Self,
    ) -> bool {
        ||| {
            &&& result is Err
            &&& self.0.accepted(source, mode, result, after.0)
            &&& after.1 == self.1
            &&& after.2 == self.2
        }
        ||| {
            &&& result is Err
            &&& self.0.accepted(source, mode, Ok::<(), error::ErrorView>(()), after.0)
            &&& self.1.accepted(source, mode, result, after.1)
            &&& after.2 == self.2
        }
        ||| {
            &&& result is Err
            &&& self.0.accepted(source, mode, Ok::<(), error::ErrorView>(()), after.0)
            &&& self.1.accepted(source, mode, Ok::<(), error::ErrorView>(()), after.1)
            &&& self.2.accepted(source, mode, result, after.2)
        }
        ||| {
            &&& result is Ok
            &&& self.0.accepted(source, mode, Ok::<(), error::ErrorView>(()), after.0)
            &&& self.1.accepted(source, mode, Ok::<(), error::ErrorView>(()), after.1)
            &&& self.2.accepted(source, mode, Ok::<(), error::ErrorView>(()), after.2)
        }
    }

    fn register_all(&mut self, source: &Src, mode: Mode) -> (r: Result<(), Error>) {
        if let Err(error) = self.0.add_source(source, mode) {
            return Err(error);
        }
        if let Err(error) = self.1.add_source(source, mode) {
            return Err(error);
        }
        self.2.add_source(source, mode)
    }
}

impl<A, B, C, D> CollectorTuple for (A, B, C, D) {
    const LEN: usize = 4;
}

impl<Src, A: AddSource<Src>, B: AddSource<Src>, C: AddSource<Src>, D: AddSource<Src>> RegisterAll<Src> for (A, B, C, D) {
    open spec fn registered(
        self,
        source: Src,
        mode: Mode,
        result: Result<(), error::ErrorView>,
        after: Self,
    ) -> bool {
        ||| {
            &&& result is Err
            &&& self.0.accepted(source, mode, result, after.0)
            &&& after.1 == self.1
            &&& after.2 == self.2
            &&& after.3 == self.3
        }
        ||| {
            &&& result is Err
            &&& self.0.accepted(source, mode, Ok::<(), error::ErrorView>(()), after.0)
            &&& self.1.accepted(source, mode, result, after.1)
            &&& after.2 == self.2
            &&& after.3 == self.3
        }
        ||| {
            &&& result is Err
            &&& self.0.accepted(source, mode, Ok::<(), error::ErrorView>(()), after.0)
            &&& self.1.accepted(source, mode, Ok::<(), error::ErrorView>(()), after.1)
            &&& self.2.accepted(source, mode, result, after.2)
            &&& after.3 == self.3
        }
        ||| {
            &&& result is Err
            &&& self.0.accepted(source, mode, Ok::<(), error::ErrorView>(()), after.0)
            &&& self.1.accepted(source, mode, Ok::<(), error::ErrorView>(()), after.1)
            &&& self.2.accepted(source, mode, Ok::<(), error::ErrorView>(()), after.2)
            &&& self.3.accepted(source, mode, result, after.3)
        }
        ||| {
            &&& result is Ok
            &&& self.0.accepted(source, mode, Ok::<(), error::ErrorView>(()), after.0)
            &&& self.1.accepted(source, mode, Ok::<(), error::ErrorView>(()), after.1)
            &&& self.2.accepted(source, mode, Ok::<(), error::ErrorView>(()), after.2)
            &&& self.3.accepted(source, mode, Ok::<(), error::ErrorView>(()), after.3)
        }
    }

    fn register_all(&mut self, source: &Src, mode: Mode) -> (r: Result<(), Error>) {
        if let Err(error) = self.0.add_source(source, mode) {
            return Err(error);
        }
        if let Err(error) = self.1.add_source(source, mode) {
            return Err(error);
        }
        if let Err(error) = self.2.add_source(source, mode) {
            return Err(error);
        }
        self.3.add_source(source, mode)
    }
}

impl<A, B, C, D, E> CollectorTuple for (A, B, C, D, E) {
    const LEN: usize = 5;
}

impl<Src, A: AddSource<Src>, B: AddSource<Src>, C: AddSource<Src>, D: AddSource<Src>, E: AddSource<Src>> RegisterAll<Src> for (A, B, C, D, E) {
    open spec fn registered(
        self,
        source: Src,
        mode: Mode,
        result: Result<(), error::ErrorView>,
        after: Self,
    ) -> bool {
        ||| {
            &&& result is Err
            &&& self.0.accepted(source, mode, result, after.0)
            &&& after.1 == self.1
            &&& after.2 == self.2
            &&& after.3 == self.3
            &&& after.4 == self.4
        }
        ||| {
            &&& result is Err
            &&& self.0.accepted(source, mode, Ok::<(), error::ErrorView>(()), after.0)
            &&& self.1.accepted(source, mode, result, after.1)
            &&& after.2 == self.2
            &&& after.3 == self.3
            &&& after.4 == self.4
        }
        ||| {
            &&& result is Err
            &&& self.0.accepted(source, mode, Ok::<(), error::ErrorView>(()), after.0)
            &&& self.1.accepted(source, mode, Ok::<(), error::ErrorView>(()), after.1)
            &&& self.2.accepted(source, mode, result, after.2)
            &&& after.3 == self.3
            &&& after.4 == self.4
        }
        ||| {
            &&& result is Err
            &&& self.0.accepted(source, mode, Ok::<(), error::ErrorView>(()), after.0)
            &&& self.1.accepted(source, mode, Ok::<(), error::ErrorView>(()), after.1)
            &&& self.2.accepted(source, mode, Ok::<(), error::ErrorView>(()), after.2)
            &&& self.3.accepted(source, mode, result, after.3)
            &&& after.4 == self.4
        }
        ||| {
            &&& result is Err
            &&& self.0.accepted(source, mode, Ok::<(), error::ErrorView>(()), after.0)
            &&& self.1.accepted(source, mode, Ok::<(), error::ErrorView>(()), after.1)
            &&& self.2.accepted(source, mode, Ok::<(), error::ErrorView>(()), after.2)
            &&& self.3.accepted(source, mode, Ok::<(), error::ErrorView>(()), after.3)
            &&& self.4.accepted(source, mode, result, after.4)
        }
        ||| {
            &&& result is Ok
            &&& self.0.accepted(source, mode, Ok::<(), error::ErrorView>(()), after.0)
            &&& self.1.accepted(source, mode, Ok::<(), error::ErrorView>(()), after.1)
            &&& self.2.accepted(source, mode, Ok::<(), error::ErrorView>(()), after.2)
            &&& self.3.accepted(source, mode, Ok::<(), error::ErrorView>(()), after.3)
            &&& self.4.accepted(source, mode, Ok::<(), error::ErrorView>(()), after.4)
        }
    }

    fn register_all(&mut self, source: &Src, mode: Mode) -> (r: Result<(), Error>) {
        if let Err(error) = self.0.add_source(source, mode) {
            return Err(error);
        }
        if let Err(error) = self.1.add_source(source, mode) {
            return Err(error);
        }
        if let Err(error) = self.2.add_source(source, mode) {
            return Err(error);
        }
        if let Err(error) = self.3.add_source(source, mode) {
            return Err(error);
        }
        self.4.add_source(source, mode)
    }
}

impl<A, B, C, D, E, F> CollectorTuple for (A, B, C, D, E, F) {
    const LEN: usize = 6;
}

impl<Src, A: AddSource<Src>, B: AddSource<Src>, C: AddSource<Src>, D: AddSource<Src>, E: AddSource<Src>, F: AddSource<Src>> RegisterAll<Src> for (A, B, C, D, E, F) {
    open spec fn registered(
        self,
        source: Src,
        mode: Mode,
        result: Result<(), error::ErrorView>,
        after: Self,
    ) -> bool {
        ||| {
            &&& result is Err
            &&& self.0.accepted(source, mode, result, after.0)
            &&& after.1 == self.1
            &&& after.2 == self.2
            &&& after.3 == self.3
            &&& after.4 == self.4
            &&& after.5 == self.5
        }
        ||| {
            &&& result is Err
            &&& self.0.accepted(source, mode, Ok::<(), error::ErrorView>(()), after.0)
            &&& self.1.accepted(source, mode, result, after.1)
            &&& after.2 == self.2
            &&& after.3 == self.3
            &&& after.4 == self.4
            &&& after.5 == self.5
        }
        ||| {
            &&& result is Err
            &&& self.0.accepted(source, mode, Ok::<(), error::ErrorView>(()), after.0)
            &&& self.1.accepted(source, mode, Ok::<(), error::ErrorView>(()), after.1)
            &&& self.2.accepted(source, mode, result, after.2)
            &&& after.3 == self.3
            &&& after.4 == self.4
            &&& after.5 == self.5
        }
        ||| {
            &&& result is Err
            &&& self.0.accepted(source, mode, Ok::<(), error::ErrorView>(()), after.0)
            &&& self.1.accepted(source, mode, Ok::<(), error::ErrorView>(()), after.1)
            &&& self.2.accepted(source, mode, Ok::<(), error::ErrorView>(()), after.2)
            &&& self.3.accepted(source, mode, result, after.3)
            &&& after.4 == self.4
            &&& after.5 == self.5
        }
        ||| {
            &&& result is Err
            &&& self.0.accepted(source, mode, Ok::<(), error::ErrorView>(()), after.0)
            &&& self.1.accepted(source, mode, Ok::<(), error::ErrorView>(()), after.1)
            &&& self.2.accepted(source, mode, Ok::<(), error::ErrorView>(()), after.2)
            &&& self.3.accepted(source, mode, Ok::<(), error::ErrorView>(()), after.3)
            &&& self.4.accepted(source, mode, result, after.4)
            &&& after.5 == self.5
        }
        ||| {
            &&& result is Err
            &&& self.0.accepted(source, mode, Ok::<(), error::ErrorView>(()), after.0)
            &&& self.1.accepted(source, mode, Ok::<(), error::ErrorView>(()), after.1)
            &&& self.2.accepted(source, mode, Ok::<(), error::ErrorView>(()), after.2)
            &&& self.3.accepted(source, mode, Ok::<(), error::ErrorView>(()), after.3)
            &&& self.4.accepted(source, mode, Ok::<(), error::ErrorView>(()), after.4)
            &&& self.5.accepted(source, mode, result, after.5)
        }
        ||| {
            &&& result is Ok
            &&& self.0.accepted(source, mode, Ok::<(), error::ErrorView>(()), after.0)
            &&& self.1.accepted(source, mode, Ok::<(), error::ErrorView>(()), after.1)
            &&& self.2.accepted(source, mode, Ok::<(), error::ErrorView>(()), after.2)
            &&& self.3.accepted(source, mode, Ok::<(), error::ErrorView>(()), after.3)
            &&& self.4.accepted(source, mode, Ok::<(), error::ErrorView>(()), after.4)
            &&& self.5.accepted(source, mode, Ok::<(), error::ErrorView>(()), after.5)
        }
    }

    fn register_all(&mut self, source: &Src, mode: Mode) -> (r: Result<(), Error>) {
        if let Err(error) = self.0.add_source(source, mode) {
            return Err(error);
        }
        if let Err(error) = self.1.add_source(source, mode) {
            return Err(error);
        }
        if let Err(error) = self.2.add_source(source, mode) {
            return Err(error);
        }
        if let Err(error) = self.3.add_source(source, mode) {
            return Err(error);
        }
        if let Err(error) = self.4.add_source(source, mode) {
            return Err(error);
        }
        self.5.add_source(source, mode)
    }
}

impl<A, B, C, D, E, F, G> CollectorTuple for (A, B, C, D, E, F, G) {
    const LEN: usize = 7;
}

impl<Src, A: AddSource<Src>, B: AddSource<Src>, C: AddSource<Src>, D: AddSource<Src>, E: AddSource<Src>, F: AddSource<Src>, G: AddSource<Src>> RegisterAll<Src> for (A, B, C, D, E, F, G) {
    open spec fn registered(
        self,
        source: Src,
        mode: Mode,
        result: Result<(), error::ErrorView>,
        after: Self,
    ) -> bool {
        ||| {
            &&& result is Err
            &&& self.0.accepted(source, mode, result, after.0)
            &&& after.1 == self.1
            &&& after.2 == self.2
            &&& after.3 == self.3
            &&& after.4 == self.4
            &&& after.5 == self.5
            &&& after.6 == self.6
        }
        ||| {
            &&& result is Err
            &&& self.0.accepted(source, mode, Ok::<(), error::ErrorView>(()), after.0)
            &&& self.1.accepted(source, mode, result, after.1)
            &&& after.2 == self.2
            &&& after.3 == self.3
            &&& after.4 == self.4
            &&& after.5 == self.5
            &&& after.6 == self.6
        }
        ||| {
            &&& result is Err
            &&& self.0.accepted(source, mode, Ok::<(), error::ErrorView>(()), after.0)
            &&& self.1.accepted(source, mode, Ok::<(), error::ErrorView>(()), after.1)
            &&& self.2.accepted(source, mode, result, after.2)
            &&& after.3 == self.3
            &&& after.4 == self.4
            &&& after.5 == self.5
            &&& after.6 == self.6
        }
        ||| {
            &&& result is Err
            &&& self.0.accepted(source, mode, Ok::<(), error::ErrorView>(()), after.0)
            &&& self.1.accepted(source, mode, Ok::<(), error::ErrorView>(()), after.1)
            &&& self.2.accepted(source, mode, Ok::<(), error::ErrorView>(()), after.2)
            &&& self.3.accepted(source, mode, result, after.3)
            &&& after.4 == self.4
            &&& after.5 == self.5
            &&& after.6 == self.6
        }
        ||| {
            &&& result is Err
            &&& self.0.accepted(source, mode, Ok::<(), error::ErrorView>(()), after.0)
            &&& self.1.accepted(source, mode, Ok::<(), error::ErrorView>(()), after.1)
            &&& self.2.accepted(source, mode, Ok::<(), error::ErrorView>(()), after.2)
            &&& self.3.accepted(source, mode, Ok::<(), error::ErrorView>(()), after.3)
            &&& self.4.accepted(source, mode, result, after.4)
            &&& after.5 == self.5
            &&& after.6 == self.6
        }
        ||| {
            &&& result is Err
            &&& self.0.accepted(source, mode, Ok::<(), error::ErrorView>(()), after.0)
            &&& self.1.accepted(source, mode, Ok::<(), error::ErrorView>(()), after.1)
            &&& self.2.accepted(source, mode, Ok::<(), error::ErrorView>(()), after.2)
            &&& self.3.accepted(source, mode, Ok::<(), error::ErrorView>(()), after.3)
            &&& self.4.accepted(source, mode, Ok::<(), error::ErrorView>(()), after.4)
            &&& self.5.accepted(source, mode, result, after.5)
            &&& after.6 == self.6
        }
        ||| {
            &&& result is Err
            &&& self.0.accepted(source, mode, Ok::<(), error::ErrorView>(()), after.0)
            &&& self.1.accepted(source, mode, Ok::<(), error::ErrorView>(()), after.1)
            &&& self.2.accepted(source, mode, Ok::<(), error::ErrorView>(()), after.2)
            &&& self.3.accepted(source, mode, Ok::<(), error::ErrorView>(()), after.3)
            &&& self.4.accepted(source, mode, Ok::<(), error::ErrorView>(()), after.4)
            &&& self.5.accepted(source, mode, Ok::<(), error::ErrorView>(()), after.5)
            &&& self.6.accepted(source, mode, result, after.6)
        }
        ||| {
            &&& result is Ok
            &&& self.0.accepted(source, mode, Ok::<(), error::ErrorView>(()), after.0)
            &&& self.1.accepted(source, mode, Ok::<(), error::ErrorView>(()), after.1)
            &&& self.2.accepted(source, mode, Ok::<(), error::ErrorView>(()), after.2)
            &&& self.3.accepted(source, mode, Ok::<(), error::ErrorView>(()), after.3)
            &&& self.4.accepted(source, mode, Ok::<(), error::ErrorView>(()), after.4)
            &&& self.5.accepted(source, mode, Ok::<(), error::ErrorView>(()), after.5)
            &&& self.6.accepted(source, mode, Ok::<(), error::ErrorView>(()), after.6)
        }
    }

    fn register_all(&mut self, source: &Src, mode: Mode) -> (r: Result<(), Error>) {
        if let Err(error) = self.0.add_source(source, mode) {
            return Err(error);
        }
        if let Err(error) = self.1.add_source(source, mode) {
            return Err(error);
        }
        if let Err(error) = self.2.add_source(source, mode) {
            return Err(error);
        }
        if let Err(error) = self.3.add_source(source, mode) {
            return Err(error);
        }
        if let Err(error) = self.4.add_source(source, mode) {
            return Err(error);
        }
        if let Err(error) = self.5.add_source(source, mode) {
            return Err(error);
        }
        self.6.add_source(source, mode)
    }
}

impl<A, B, C, D, E, F, G, H> CollectorTuple for (A, B, C, D, E, F, G, H) {
    const LEN: usize = 8;
}

impl<Src, A: AddSource<Src>, B: AddSource<Src>, C: AddSource<Src>, D: AddSource<Src>, E: AddSource<Src>, F: AddSource<Src>, G: AddSource<Src>, H: AddSource<Src>> RegisterAll<Src> for (A, B, C, D, E, F, G, H) {
    open spec fn registered(
        self,
        source: Src,
        mode: Mode,
        result: Result<(), error::ErrorView>,
        after: Self,
    ) -> bool {
        ||| {
            &&& result is Err
            &&& self.0.accepted(source, mode, result, after.0)
            &&& after.1 == self.1
            &&& after.2 == self.2
            &&& after.3 == self.3
            &&& after.4 == self.4
            &&& after.5 == self.5
            &&& after.6 == self.6
            &&& after.7 == self.7
        }
        ||| {
            &&& result is Err
            &&& self.0.accepted(source, mode, Ok::<(), error::ErrorView>(()), after.0)
            &&& self.1.accepted(source, mode, result, after.1)
            &&& after.2 == self.2
            &&& after.3 == self.3
            &&& after.4 == self.4
            &&& after.5 == self.5
            &&& after.6 == self.6
            &&& after.7 == self.7
        }
        ||| {
            &&& result is Err
            &&& self.0.accepted(source, mode, Ok::<(), error::ErrorView>(()), after.0)
            &&& self.1.accepted(source, mode, Ok::<(), error::ErrorView>(()), after.1)
            &&& self.2.accepted(source, mode, result, after.2)
            &&& after.3 == self.3
            &&& after.4 == self.4
            &&& after.5 == self.5
            &&& after.6 == self.6
            &&& after.7 == self.7
        }
        ||| {
            &&& result is Err
            &&& self.0.accepted(source, mode, Ok::<(), error::ErrorView>(()), after.0)
            &&& self.1.accepted(source, mode, Ok::<(), error::ErrorView>(()), after.1)
            &&& self.2.accepted(source, mode, Ok::<(), error::ErrorView>(()), after.2)
            &&& self.3.accepted(source, mode, result, after.3)
            &&& after.4 == self.4
            &&& after.5 == self.5
            &&& after.6 == self.6
            &&& after.7 == self.7
        }
        ||| {
            &&& result is Err
            &&& self.0.accepted(source, mode, Ok::<(), error::ErrorView>(()), after.0)
            &&& self.1.accepted(source, mode, Ok::<(), error::ErrorView>(()), after.1)
            &&& self.2.accepted(source, mode, Ok::<(), error::ErrorView>(()), after.2)
            &&& self.3.accepted(source, mode, Ok::<(), error::ErrorView>(()), after.3)
            &&& self.4.accepted(source, mode, result, after.4)
            &&& after.5 == self.5
            &&& after.6 == self.6
            &&& after.7 == self.7
        }
        ||| {
            &&& result is Err
            &&& self.0.accepted(source, mode, Ok::<(), error::ErrorView>(()), after.0)
            &&& self.1.accepted(source, mode, Ok::<(), error::ErrorView>(()), after.1)
            &&& self.2.accepted(source, mode, Ok::<(), error::ErrorView>(()), after.2)
            &&& self.3.accepted(source, mode, Ok::<(), error::ErrorView>(()), after.3)
            &&& self.4.accepted(source, mode, Ok::<(), error::ErrorView>(()), after.4)
            &&& self.5.accepted(source, mode, result, after.5)
            &&& after.6 == self.6
            &&& after.7 == self.7
        }
        ||| {
            &&& result is Err
            &&& self.0.accepted(source, mode, Ok::<(), error::ErrorView>(()), after.0)
            &&& self.1.accepted(source, mode, Ok::<(), error::ErrorView>(()), after.1)
            &&& self.2.accepted(source, mode, Ok::<(), error::ErrorView>(()), after.2)
            &&& self.3.accepted(source, mode, Ok::<(), error::ErrorView>(()), after.3)
            &&& self.4.accepted(source, mode, Ok::<(), error::ErrorView>(()), after.4)
            &&& self.5.accepted(source, mode, Ok::<(), error::ErrorView>(()), after.5)
            &&& self.6.accepted(source, mode, result, after.6)
            &&& after.7 == self.7
        }
        ||| {
            &&& result is Err
            &&& self.0.accepted(source, mode, Ok::<(), error::ErrorView>(()), after.0)
            &&& self.1.accepted(source, mode, Ok::<(), error::ErrorView>(()), after.1)
            &&& self.2.accepted(source, mode, Ok::<(), error::ErrorView>(()), after.2)
            &&& self.3.accepted(source, mode, Ok::<(), error::ErrorView>(()), after.3)
            &&& self.4.accepted(source, mode, Ok::<(), error::ErrorView>(()), after.4)
            &&& self.5.accepted(source, mode, Ok::<(), error::ErrorView>(()), after.5)
            &&& self.6.accepted(source, mode, Ok::<(), error::ErrorView>(()), after.6)
            &&& self.7.accepted(source, mode, result, after.7)
        }
        ||| {
            &&& result is Ok
            &&& self.0.accepted(source, mode, Ok::<(), error::ErrorView>(()), after.0)
            &&& self.1.accepted(source, mode, Ok::<(), error::ErrorView>(()), after.1)
            &&& self.2.accepted(source, mode, Ok::<(), error::ErrorView>(()), after.2)
            &&& self.3.accepted(source, mode, Ok::<(), error::ErrorView>(()), after.3)
            &&& self.4.accepted(source, mode, Ok::<(), error::ErrorView>(()), after.4)
            &&& self.5.accepted(source, mode, Ok::<(), error::ErrorView>(()), after.5)
            &&& self.6.accepted(source, mode, Ok::<(), error::ErrorView>(()), after.6)
            &&& self.7.accepted(source, mode, Ok::<(), error::ErrorView>(()), after.7)
        }
    }

    fn register_all(&mut self, source: &Src, mode: Mode) -> (r: Result<(), Error>) {
        if let Err(error) = self.0.add_source(source, mode) {
            return Err(error);
        }
        if let Err(error) = self.1.add_source(source, mode) {
            return Err(error);
        }
        if let Err(error) = self.2.add_source(source, mode) {
            return Err(error);
        }
        if let Err(error) = self.3.add_source(source, mode) {
            return Err(error);
        }
        if let Err(error) = self.4.add_source(source, mode) {
            return Err(error);
        }
        if let Err(error) = self.5.add_source(source, mode) {
            return Err(error);
        }
        if let Err(error) = self.6.add_source(source, mode) {
            return Err(error);
        }
        self.7.add_source(source, mode)
    }
}

/// A tuple of collectors has as many of them as it says.
pub proof fn collectors_are_counted<A, B, C, D, E, F, G, H>()
    ensures
        <(A,) as CollectorTuple>::LEN == 1,
        <(A, B) as CollectorTuple>::LEN == 2,
        <(A, B, C) as CollectorTuple>::LEN == 3,
        <(A, B, C, D) as CollectorTuple>::LEN == 4,
        <(A, B, C, D, E) as CollectorTuple>::LEN == 5,
        <(A, B, C, D, E, F) as CollectorTuple>::LEN == 6,
        <(A, B, C, D, E, F, G) as CollectorTuple>::LEN == 7,
        <(A, B, C, D, E, F, G, H) as CollectorTuple>::LEN == 8,
{
}

} // verus!
