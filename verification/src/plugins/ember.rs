//! Ember.js, Glimmer and Embroider projects.
use vstd::prelude::*;

use super::{rule_view, scoped_rule, str_list, UsedClassMemberRule};

verus! {

/// The framework-called members of each Ember base class: component
/// lifecycle hooks, route hooks and the properties the resolver reads, and
/// the teardown lifecycle of every `EmberObject`.
pub open spec fn ember_member_rules() -> Seq<(&'static str, Seq<&'static str>)> {
    seq![
        ("Component", seq!["willDestroy", "didInsertElement", "didRender", "didUpdate", "didReceiveAttrs", "willRender", "willUpdate", "willClearRender", "willDestroyElement", "didDestroyElement"]),
        ("Route", seq!["model", "beforeModel", "afterModel", "setupController", "resetController", "redirect", "serialize", "deserialize", "activate", "deactivate", "buildRouteInfoMetadata", "actions", "queryParams", "templateName", "controllerName", "init", "willDestroy", "destroy"]),
        ("Controller", seq!["actions", "queryParams", "templateName", "controllerName", "init", "willDestroy", "destroy"]),
        ("Service", seq!["init", "willDestroy", "destroy"]),
        ("Helper", seq!["compute", "recompute", "init", "willDestroy", "destroy"]),
        ("Modifier", seq!["modify", "willDestroy", "didReceiveArguments", "didInstall", "didUpdateArguments", "willRemove"]),
        ("Application", seq!["ready", "customEvents", "eventDispatcher", "resolver", "rootElement", "init", "willDestroy", "destroy"]),
        ("Router", seq!["map", "location", "rootURL", "willTransition", "didTransition"]),
    ]
}

/// Built-in plugin for ember.js, Glimmer and Embroider projects.
pub struct EmberPlugin;

impl EmberPlugin {
    /// The plugin's name.
    pub fn name(&self) -> (n: &'static str)
        ensures
            n@ == "ember"@,
    {
        "ember"
    }

    /// Packages whose presence activates the plugin.
    pub fn enablers(&self) -> (v: Vec<&'static str>)
        ensures
            v@ == seq![
                "ember-source",
                "ember-cli",
                "@embroider/core",
                "@embroider/compat",
                "@glimmer/component",
            ],
    {
        str_list(&[
            "ember-source",
            "ember-cli",
            "@embroider/core",
            "@embroider/compat",
            "@glimmer/component",
        ])
    }

    /// Packages an Ember project needs but never imports from source.
    pub fn tooling_dependencies(&self) -> (v: Vec<&'static str>)
        ensures
            v@ == seq![
                "ember-source",
                "ember-cli",
                "ember-cli-htmlbars",
                "ember-cli-babel",
                "ember-auto-import",
                "@embroider/core",
                "@glint/core",
                "@glint/environment-ember-loose",
                "@glint/environment-ember-template-imports",
                "ember-cli-test-loader",
                "ember-exam",
                "ember-template-lint",
                "ember-template-imports",
                "ember-source-channel-url",
                "@ember/optional-features",
                "ember-cli-dependency-checker",
                "ember-cli-inject-live-reload",
                "ember-cli-sri",
                "ember-cli-terser",
                "loader.js",
                "broccoli-asset-rev",
                "ember-cli-app-version",
                "ember-export-application-global",
                "@tsconfig/ember",
                "@glint/tsserver-plugin",
            ],
    {
        str_list(&[
            "ember-source",
            "ember-cli",
            "ember-cli-htmlbars",
            "ember-cli-babel",
            "ember-auto-import",
            "@embroider/core",
            "@glint/core",
            "@glint/environment-ember-loose",
            "@glint/environment-ember-template-imports",
            "ember-cli-test-loader",
            "ember-exam",
            "ember-template-lint",
            "ember-template-imports",
            "ember-source-channel-url",
            "@ember/optional-features",
            "ember-cli-dependency-checker",
            "ember-cli-inject-live-reload",
            "ember-cli-sri",
            "ember-cli-terser",
            "loader.js",
            "broccoli-asset-rev",
            "ember-cli-app-version",
            "ember-export-application-global",
            "@tsconfig/ember",
            "@glint/tsserver-plugin",
        ])
    }

    /// Import prefixes that `ember-source` serves through its loader rather than as npm packages.
    pub fn virtual_module_prefixes(&self) -> (v: Vec<&'static str>)
        ensures
            v@ == seq![
                "ember/",
                "@ember/application",
                "@ember/array",
                "@ember/canary-features",
                "@ember/component",
                "@ember/controller",
                "@ember/debug",
                "@ember/destroyable",
                "@ember/engine",
                "@ember/enumerable",
                "@ember/error",
                "@ember/helper",
                "@ember/instrumentation",
                "@ember/modifier",
                "@ember/object",
                "@ember/owner",
                "@ember/renderer",
                "@ember/routing",
                "@ember/runloop",
                "@ember/service",
                "@ember/template",
                "@ember/utils",
                "@ember/version",
            ],
    {
        str_list(&[
            "ember/",
            "@ember/application",
            "@ember/array",
            "@ember/canary-features",
            "@ember/component",
            "@ember/controller",
            "@ember/debug",
            "@ember/destroyable",
            "@ember/engine",
            "@ember/enumerable",
            "@ember/error",
            "@ember/helper",
            "@ember/instrumentation",
            "@ember/modifier",
            "@ember/object",
            "@ember/owner",
            "@ember/renderer",
            "@ember/routing",
            "@ember/runloop",
            "@ember/service",
            "@ember/template",
            "@ember/utils",
            "@ember/version",
        ])
    }

    /// Files the Ember resolver loads by convention.
    pub fn entry_patterns(&self) -> (v: Vec<&'static str>)
        ensures
            v@ == seq![
                "app/app.{js,ts,gjs,gts}",
                "app/router.{js,ts}",
                "app/index.html",
                "app/components/**/*.{js,ts,gjs,gts,hbs}",
                "app/routes/**/*.{js,ts,gjs,gts}",
                "app/controllers/**/*.{js,ts}",
                "app/templates/**/*.{hbs,gjs,gts}",
                "app/models/**/*.{js,ts}",
                "app/services/**/*.{js,ts}",
                "app/helpers/**/*.{js,ts,gjs,gts}",
                "app/modifiers/**/*.{js,ts}",
                "app/initializers/**/*.{js,ts}",
                "app/instance-initializers/**/*.{js,ts}",
                "app/adapters/**/*.{js,ts}",
                "app/serializers/**/*.{js,ts}",
                "app/transforms/**/*.{js,ts}",
                "tests/test-helper.{js,ts}",
                "tests/index.html",
                "tests/**/*-test.{js,ts,gjs,gts}",
                "config/environment.js",
                "config/targets.js",
                "config/optional-features.json",
                "config/deprecation-workflow.js",
                "ember-cli-build.js",
                "testem.js",
            ],
    {
        str_list(&[
            "app/app.{js,ts,gjs,gts}",
            "app/router.{js,ts}",
            "app/index.html",
            "app/components/**/*.{js,ts,gjs,gts,hbs}",
            "app/routes/**/*.{js,ts,gjs,gts}",
            "app/controllers/**/*.{js,ts}",
            "app/templates/**/*.{hbs,gjs,gts}",
            "app/models/**/*.{js,ts}",
            "app/services/**/*.{js,ts}",
            "app/helpers/**/*.{js,ts,gjs,gts}",
            "app/modifiers/**/*.{js,ts}",
            "app/initializers/**/*.{js,ts}",
            "app/instance-initializers/**/*.{js,ts}",
            "app/adapters/**/*.{js,ts}",
            "app/serializers/**/*.{js,ts}",
            "app/transforms/**/*.{js,ts}",
            "tests/test-helper.{js,ts}",
            "tests/index.html",
            "tests/**/*-test.{js,ts,gjs,gts}",
            "config/environment.js",
            "config/targets.js",
            "config/optional-features.json",
            "config/deprecation-workflow.js",
            "ember-cli-build.js",
            "testem.js",
        ])
    }


    /// Lifecycle rules: the members of each Ember base class that the
    /// framework calls, scoped to classes that extend it.
    pub fn used_class_member_rules(&self) -> (v: Vec<UsedClassMemberRule>)
        ensures
            v@.len() == ember_member_rules().len(),
            forall|i: int|
                0 <= i < v@.len() ==> rule_view(#[trigger] v@[i]) == (
                    Some(ember_member_rules()[i].0@),
                    None::<Seq<char>>,
                    crate::text::views(ember_member_rules()[i].1),
                ),
    {
        let mut v: Vec<UsedClassMemberRule> = Vec::new();
        let m0: [&str; 10] = ["willDestroy", "didInsertElement", "didRender", "didUpdate", "didReceiveAttrs", "willRender", "willUpdate", "willClearRender", "willDestroyElement", "didDestroyElement"];
        assert(m0@ == ember_member_rules()[0].1);
        v.push(scoped_rule("Component", &m0));
        let m1: [&str; 18] = ["model", "beforeModel", "afterModel", "setupController", "resetController", "redirect", "serialize", "deserialize", "activate", "deactivate", "buildRouteInfoMetadata", "actions", "queryParams", "templateName", "controllerName", "init", "willDestroy", "destroy"];
        assert(m1@ == ember_member_rules()[1].1);
        v.push(scoped_rule("Route", &m1));
        let m2: [&str; 7] = ["actions", "queryParams", "templateName", "controllerName", "init", "willDestroy", "destroy"];
        assert(m2@ == ember_member_rules()[2].1);
        v.push(scoped_rule("Controller", &m2));
        let m3: [&str; 3] = ["init", "willDestroy", "destroy"];
        assert(m3@ == ember_member_rules()[3].1);
        v.push(scoped_rule("Service", &m3));
        let m4: [&str; 5] = ["compute", "recompute", "init", "willDestroy", "destroy"];
        assert(m4@ == ember_member_rules()[4].1);
        v.push(scoped_rule("Helper", &m4));
        let m5: [&str; 6] = ["modify", "willDestroy", "didReceiveArguments", "didInstall", "didUpdateArguments", "willRemove"];
        assert(m5@ == ember_member_rules()[5].1);
        v.push(scoped_rule("Modifier", &m5));
        let m6: [&str; 8] = ["ready", "customEvents", "eventDispatcher", "resolver", "rootElement", "init", "willDestroy", "destroy"];
        assert(m6@ == ember_member_rules()[6].1);
        v.push(scoped_rule("Application", &m6));
        let m7: [&str; 5] = ["map", "location", "rootURL", "willTransition", "didTransition"];
        assert(m7@ == ember_member_rules()[7].1);
        v.push(scoped_rule("Router", &m7));
        v
    }
}

} // verus!
