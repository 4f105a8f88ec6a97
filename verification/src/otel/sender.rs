//! Requests to an OTLP collector, and what its responses mean.

use crate::error;
use crate::error::Error;
use crate::model;
use crate::model::KeyValue;
use crate::otel::dto;
use crate::otel::dto::{Metric, Resource, Scope};
use vstd::prelude::*;
use vstd::string::*;

verus! {

/// What every request says besides its metrics, and whether warnings are passed over.
pub struct Settings {
    resource: Vec<KeyValue>,
    scope: Scope,
    schema_url: String,
    silent: bool,
}

#[verifier::ext_equal]
pub ghost struct SettingsView {
    pub resource: Seq<model::KeyValueView>,
    pub scope: dto::ScopeView,
    pub schema_url: Seq<char>,
    pub silent: bool,
}

impl View for Settings {
    type V = SettingsView;

    closed spec fn view(&self) -> SettingsView {
        SettingsView {
            resource: model::attrs_view(self.resource@),
            scope: self.scope@,
            schema_url: self.schema_url@,
            silent: self.silent,
        }
    }
}

/// One request: metrics of one scope of one resource. The schema is that of both.
pub struct Request {
    pub resource: Vec<KeyValue>,
    pub scope: Scope,
    pub metrics: Vec<Metric>,
    pub schema_url: String,
}

/// What a collector says of a request that it did not take as a whole.
pub struct PartialSuccess {
    pub rejected_data_points: i64,
    pub error_message: String,
}

impl Settings {
    /// Settings for a resource, with the scope of this library, no schema, and warnings on.
    pub fn new(resource: Resource) -> (r: Settings)
        ensures
            r@ == (SettingsView {
                resource: dto::resource_attributes(resource@),
                scope: dto::ScopeView { name: "ohnotel"@, version: "0.1.0"@, attributes: Seq::empty() },
                schema_url: Seq::empty(),
                silent: false,
            }),
    {
        let r = Settings {
            resource: resource.into_attributes(),
            scope: Scope::default(),
            schema_url: String::new(),
            silent: false,
        };
        assert(r@.schema_url =~= Seq::<char>::empty());
        r
    }

    pub fn with_resource(self, resource: Resource) -> (r: Settings)
        ensures
            r@ == (SettingsView { resource: dto::resource_attributes(resource@), ..self@ }),
    {
        Settings {
            resource: resource.into_attributes(),
            scope: self.scope,
            schema_url: self.schema_url,
            silent: self.silent,
        }
    }

    pub fn with_scope(self, scope: Scope) -> (r: Settings)
        ensures
            r@ == (SettingsView { scope: scope@, ..self@ }),
    {
        Settings { resource: self.resource, scope, schema_url: self.schema_url, silent: self.silent }
    }

    pub fn with_schema_url(self, url: String) -> (r: Settings)
        ensures
            r@ == (SettingsView { schema_url: url@, ..self@ }),
    {
        Settings { resource: self.resource, scope: self.scope, schema_url: url, silent: self.silent }
    }

    pub fn with_silent(self, silent: bool) -> (r: Settings)
        ensures
            r@ == (SettingsView { silent, ..self@ }),
    {
        Settings { resource: self.resource, scope: self.scope, schema_url: self.schema_url, silent }
    }

    /// The request for a batch of metrics.
    pub fn build_request(&self, metrics: Vec<Metric>) -> (r: Request)
        ensures
            model::attrs_view(r.resource@) == self@.resource,
            r.scope@ == self@.scope,
            r.metrics == metrics,
            r.schema_url@ == self@.schema_url,
    {
        Request {
            resource: model::copy_attrs(&self.resource),
            scope: Scope {
                name: self.scope.name.copy(),
                version: self.scope.version.copy(),
                attributes: model::copy_attrs(&self.scope.attributes),
            },
            metrics,
            schema_url: self.schema_url.clone(),
        }
    }

    /// What a response means: an error where the collector rejected data points, a warning where it
    /// only has something to say and warnings are not passed over, and otherwise nothing.
    pub fn judge(&self, partial_success: Option<PartialSuccess>) -> (r: Result<Option<String>, Error>)
        ensures
            match partial_success {
                None => r == Ok::<Option<String>, Error>(None),
                Some(partial) => if partial.rejected_data_points != 0 {
                    r is Err && r->Err_0@ == (error::ErrorView::OtlpPartialExport {
                        rejected_data_points: partial.rejected_data_points,
                        error_message: partial.error_message@,
                    })
                } else if partial.error_message@.len() > 0 && !self@.silent {
                    r == Ok::<Option<String>, Error>(Some(partial.error_message))
                } else {
                    r == Ok::<Option<String>, Error>(None)
                },
            },
    {
        let partial = match partial_success {
            Some(partial) => partial,
            None => {
                return Ok(None);
            },
        };
        if partial.rejected_data_points != 0 {
            return Err(
                Error::OtlpPartialExport {
                    rejected_data_points: partial.rejected_data_points,
                    error_message: partial.error_message,
                },
            );
        }
        if !partial.error_message.as_str().is_empty() && !self.silent {
            return Ok(Some(partial.error_message));
        }
        Ok(None)
    }
}

} // verus!
