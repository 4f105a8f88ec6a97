//! The resource that metrics are exported for.

use crate::model;
use crate::model::{KeyValueView, ValueView};
use crate::otel::dto as otlp;
use crate::otel::dto::{Resource, ResourceView, Scope};
use crate::text;
use vstd::prelude::*;

verus! {

/// A key is found at the first place that has it, and is missing only where no place does.
pub proof fn keys_are_found(attrs: Seq<KeyValueView>, key: Seq<char>)
    ensures
        match otlp::key_position(attrs, key) {
            Some(i) => {
                &&& 0 <= i < attrs.len()
                &&& attrs[i].key == key
                &&& forall|j: int| 0 <= j < i ==> (#[trigger] attrs[j]).key != key
            },
            None => forall|j: int| 0 <= j < attrs.len() ==> (#[trigger] attrs[j]).key != key,
        },
    decreases attrs.len(),
{
    if attrs.len() > 0 {
        let before = attrs.drop_last();
        keys_are_found(before, key);
        assert forall|j: int| 0 <= j < before.len() implies #[trigger] attrs[j] == before[j] by {}
        match otlp::key_position(before, key) {
            Some(i) => {
                assert(attrs[i] == before[i]);
                assert forall|j: int| 0 <= j < i implies (#[trigger] attrs[j]).key != key by {
                    assert(attrs[j] == before[j]);
                }
            },
            None => {
                assert forall|j: int| 0 <= j < before.len() implies (#[trigger] attrs[j]).key != key by {
                    assert(attrs[j] == before[j]);
                }
            },
        }
    }
}

/// An attribute takes the place of the one of its key, or the last place; all others stay where they
/// are. One without a key is passed over.
pub proof fn attributes_keep_their_places(attrs: Seq<KeyValueView>, attr: KeyValueView)
    ensures
        ({
            let after = otlp::upserted(attrs, attr);
            &&& attr.key.len() == 0 ==> after == attrs
            &&& attr.key.len() > 0 ==> match otlp::key_position(attrs, attr.key) {
                Some(i) => {
                    &&& after.len() == attrs.len()
                    &&& after[i] == attr
                    &&& forall|j: int| 0 <= j < attrs.len() && j != i ==> #[trigger] after[j] == attrs[j]
                },
                None => {
                    &&& after.len() == attrs.len() + 1
                    &&& after.last() == attr
                    &&& forall|j: int| 0 <= j < attrs.len() ==> #[trigger] after[j] == attrs[j]
                },
            }
        }),
{
    keys_are_found(attrs, attr.key);
}

/// What was last given under a key is the value of the last attribute that has it.
pub proof fn last_given_is_the_last(attrs: Seq<KeyValueView>, attr: KeyValueView, key: Seq<char>)
    requires
        key.len() > 0,
    ensures
        otlp::last_given(Seq::empty(), key) is None,
        otlp::last_given(attrs.push(attr), key) == if attr.key == key {
            Some(attr.value)
        } else {
            otlp::last_given(attrs, key)
        },
{
    assert(attrs.push(attr).drop_last() =~= attrs);
}

/// What a resource has under a key: the text of the field, where there is one, and else what was given.
pub open spec fn has_field(resource: ResourceView, key: Seq<char>, field: Option<Seq<char>>) -> bool {
    otlp::value_of(otlp::resource_attributes(resource), key) == match field {
        Some(text) => Some(Some(ValueView::String(text))),
        None => otlp::last_given(resource.attributes, key),
    }
}

/// Every field of a resource goes out under its own key.
pub proof fn fields_have_their_keys(resource: ResourceView)
    ensures
        has_field(resource, "service.name"@, resource.service_name),
        has_field(resource, "service.namespace"@, resource.service_namespace),
        has_field(resource, "service.version"@, resource.service_version),
        has_field(resource, "service.instance.id"@, resource.service_instance_id),
        has_field(resource, "telemetry.sdk.name"@, resource.telemetry_sdk_name),
        has_field(resource, "telemetry.sdk.language"@, resource.telemetry_sdk_language),
        has_field(resource, "telemetry.sdk.version"@, resource.telemetry_sdk_version),
        has_field(resource, "host.name"@, resource.host_name),
        has_field(resource, "host.arch"@, resource.host_arch),
        has_field(resource, "os.type"@, resource.os_type),
        has_field(resource, "process.executable.name"@, resource.process_executable_name),
{
    let fields = otlp::resource_fields(resource);
    otlp::resource_fields_win(resource, "service.name"@);
    assert(fields[0].0 == "service.name"@);
    otlp::resource_fields_win(resource, "service.namespace"@);
    assert(fields[1].0 == "service.namespace"@);
    otlp::resource_fields_win(resource, "service.version"@);
    assert(fields[2].0 == "service.version"@);
    otlp::resource_fields_win(resource, "service.instance.id"@);
    assert(fields[3].0 == "service.instance.id"@);
    otlp::resource_fields_win(resource, "telemetry.sdk.name"@);
    assert(fields[4].0 == "telemetry.sdk.name"@);
    otlp::resource_fields_win(resource, "telemetry.sdk.language"@);
    assert(fields[5].0 == "telemetry.sdk.language"@);
    otlp::resource_fields_win(resource, "telemetry.sdk.version"@);
    assert(fields[6].0 == "telemetry.sdk.version"@);
    otlp::resource_fields_win(resource, "host.name"@);
    assert(fields[7].0 == "host.name"@);
    otlp::resource_fields_win(resource, "host.arch"@);
    assert(fields[8].0 == "host.arch"@);
    otlp::resource_fields_win(resource, "os.type"@);
    assert(fields[9].0 == "os.type"@);
    otlp::resource_fields_win(resource, "process.executable.name"@);
    assert(fields[10].0 == "process.executable.name"@);
}

/// Architectures that OTLP names otherwise go out under its names, all others under their own.
pub proof fn architectures_have_names(arch: Seq<char>)
    ensures
        otlp::arch_name("x86_64"@) == "amd64"@,
        otlp::arch_name("aarch64"@) == "arm64"@,
        otlp::arch_name("arm"@) == "arm32"@,
        otlp::arch_name("powerpc64"@) == "ppc64"@,
        arch != "x86_64"@ && arch != "aarch64"@ && arch != "arm"@ && arch != "powerpc64"@ ==> otlp::arch_name(
            arch,
        ) == arch,
{
    reveal_strlit("x86_64");
    reveal_strlit("aarch64");
    reveal_strlit("arm");
    reveal_strlit("powerpc64");
    assert("aarch64"@.len() != "x86_64"@.len());
    assert("arm"@.len() != "x86_64"@.len() && "arm"@.len() != "aarch64"@.len());
    assert("powerpc64"@.len() != "x86_64"@.len() && "powerpc64"@.len() != "aarch64"@.len()
        && "powerpc64"@.len() != "arm"@.len());
}

/// The systems of Apple go out as `darwin`, all others under their own name.
pub proof fn systems_have_names(os: Seq<char>)
    ensures
        otlp::os_name("macos"@) == "darwin"@,
        otlp::os_name("ios"@) == "darwin"@,
        os != "macos"@ && os != "ios"@ ==> otlp::os_name(os) == os,
{
}

/// A host name is what stands before the first zero byte, or all there is.
pub proof fn host_names_end_at_zero(bytes: Seq<u8>)
    ensures
        ({
            let name = otlp::before_zero(bytes);
            &&& name.len() <= bytes.len()
            &&& forall|i: int| 0 <= i < name.len() ==> #[trigger] name[i] == bytes[i] && name[i] != 0
            &&& name.len() < bytes.len() ==> bytes[name.len() as int] == 0
        }),
    decreases bytes.len(),
{
    if bytes.len() > 0 && bytes[0] != 0 {
        let rest = bytes.drop_first();
        host_names_end_at_zero(rest);
        let name = otlp::before_zero(bytes);
        let shorter = otlp::before_zero(rest);
        assert(name.len() == shorter.len() + 1);
        assert forall|i: int| 0 <= i < name.len() implies #[trigger] name[i] == bytes[i] && name[i] != 0 by {
            if i > 0 {
                assert(name[i] == shorter[i - 1]);
                assert(rest[i - 1] == bytes[i]);
            }
        }
        if name.len() < bytes.len() {
            assert(rest[shorter.len() as int] == bytes[name.len() as int]);
        }
    }
}

/// A detected resource has the service name, unless that is empty, and the host, architecture, system and
/// executable it was given, each in its own field. It names this library and nothing else.
pub proof fn detected_resources_hold_what_was_found(
    service_name: Option<Seq<char>>,
    host_name: Seq<u8>,
    arch: Seq<char>,
    os: Seq<char>,
    executable: Option<Seq<char>>,
)
    ensures
        ({
            let resource = otlp::detected_resource(service_name, host_name, arch, os, executable);
            &&& service_name is None ==> resource.service_name is None
            &&& service_name matches Some(name) ==> resource.service_name == if name.len() == 0 {
                None
            } else {
                Some(name)
            }
            &&& resource.service_namespace is None
            &&& resource.service_version is None
            &&& resource.service_instance_id is None
            &&& resource.telemetry_sdk_name == Some("ohnotel"@)
            &&& resource.telemetry_sdk_language == Some("rust"@)
            &&& resource.telemetry_sdk_version == Some("0.1.0"@)
            &&& resource.host_name == Some(text::lossy_text(otlp::before_zero(host_name)))
            &&& resource.host_arch == Some(otlp::arch_name(arch))
            &&& resource.os_type == Some(otlp::os_name(os))
            &&& resource.process_executable_name == executable
            &&& resource.attributes.len() == 0
        }),
{
}

/// What a resource and a scope are said to hold, their fields hold: no field stands for another.
pub proof fn resources_are_seen_as_they_are(resource: Resource, scope: Scope)
    ensures
        resource@.service_name == otlp::text_view(resource.service_name),
        resource@.service_namespace == otlp::text_view(resource.service_namespace),
        resource@.service_version == otlp::text_view(resource.service_version),
        resource@.service_instance_id == otlp::text_view(resource.service_instance_id),
        resource@.telemetry_sdk_name == otlp::text_view(resource.telemetry_sdk_name),
        resource@.telemetry_sdk_language == otlp::text_view(resource.telemetry_sdk_language),
        resource@.telemetry_sdk_version == otlp::text_view(resource.telemetry_sdk_version),
        resource@.host_name == otlp::text_view(resource.host_name),
        resource@.host_arch == otlp::text_view(resource.host_arch),
        resource@.os_type == otlp::text_view(resource.os_type),
        resource@.process_executable_name == otlp::text_view(resource.process_executable_name),
        resource@.attributes == model::attrs_view(resource.attributes@),
        resource.service_name matches Some(name) ==> otlp::text_view(resource.service_name) == Some(name@),
        resource.service_name is None ==> otlp::text_view(resource.service_name) is None,
        scope@.name == scope.name@,
        scope@.version == scope.version@,
        scope@.attributes == model::attrs_view(scope.attributes@),
{
}

} // verus!
