//! The synthesized builder configuration and the builder-tool command line.
//!
//! A builder configuration pairs a chosen stack with the resolved buildpack
//! list and one detection group per buildpack, in input order.  Persisting
//! the document and spawning the tool are I/O and live in the application;
//! the document text, the per-application paths and the tool's argument
//! list are computed here.

use vstd::prelude::*;

use crate::buildpack::{Buildpack, BuildpackView};
use crate::stack::{Stack, StackView};
use crate::text::{dec_i, i64_to_string};

verus! {

/// One entry of a detection group: the buildpack it references and whether
/// detection may skip it.
pub struct Group {
    pub id: Option<String>,
    pub optional: Option<bool>,
}

/// The mathematical shadow of [`Group`].
pub struct GroupView {
    pub id: Option<Seq<char>>,
    pub optional: Option<bool>,
}

impl View for Group {
    type V = GroupView;

    open spec fn view(&self) -> GroupView {
        GroupView { id: self.id.deep_view(), optional: self.optional }
    }
}

impl DeepView for Group {
    type V = GroupView;

    open spec fn deep_view(&self) -> GroupView {
        self.view()
    }
}

/// One detection-order entry: a group of buildpacks tried together.
pub struct Order {
    pub group: Vec<Group>,
}

/// The mathematical shadow of [`Order`].
pub struct OrderView {
    pub group: Seq<GroupView>,
}

impl View for Order {
    type V = OrderView;

    open spec fn view(&self) -> OrderView {
        OrderView { group: self.group.deep_view() }
    }
}

impl DeepView for Order {
    type V = OrderView;

    open spec fn deep_view(&self) -> OrderView {
        self.view()
    }
}

/// A builder configuration: description, target stack, the buildpacks it
/// assembles, and their detection order.
pub struct Builder {
    pub description: Option<String>,
    pub stack: Stack,
    pub buildpacks: Vec<Buildpack>,
    pub order: Vec<Order>,
}

/// The mathematical shadow of [`Builder`].
pub struct BuilderView {
    pub description: Option<Seq<char>>,
    pub stack: StackView,
    pub buildpacks: Seq<BuildpackView>,
    pub order: Seq<OrderView>,
}

impl View for Builder {
    type V = BuilderView;

    open spec fn view(&self) -> BuilderView {
        BuilderView {
            description: self.description.deep_view(),
            stack: self.stack@,
            buildpacks: self.buildpacks.deep_view(),
            order: self.order.deep_view(),
        }
    }
}

impl DeepView for Builder {
    type V = BuilderView;

    open spec fn deep_view(&self) -> BuilderView {
        self.view()
    }
}

/// The directory the configuration document for `app_id` is kept in.
pub open spec fn save_dir_of(app_id: int) -> Seq<char> {
    "./dumps/"@ + dec_i(app_id)
}

/// The path the configuration document for `app_id` is written to.
pub open spec fn save_path_of(app_id: int) -> Seq<char> {
    save_dir_of(app_id) + "/builder.toml"@
}

/// The path the builder tool is told to read the configuration from.
pub open spec fn config_path_of(app_id: int) -> Seq<char> {
    "/app/"@ + dec_i(app_id) + "/builder.toml"@
}

/// The target image name: the application id and the stack id, separated
/// by a colon.
pub open spec fn image_name_of(app_id: int, stack_id: Seq<char>) -> Seq<char> {
    dec_i(app_id) + ":"@ + stack_id
}

impl Builder {
    /// The directory the configuration document for `app_id` is kept in.
    pub fn save_dir(app_id: i64) -> (r: String)
        ensures
            r@ == save_dir_of(app_id as int),
    {
        String::from_str("./dumps/").concat(i64_to_string(app_id).as_str())
    }

    /// The path the configuration document for `app_id` is written to.
    pub fn save_path(app_id: i64) -> (r: String)
        ensures
            r@ == save_path_of(app_id as int),
    {
        Self::save_dir(app_id).concat("/builder.toml")
    }

    /// The path the builder tool is told to read the configuration from.
    pub fn config_path(app_id: i64) -> (r: String)
        ensures
            r@ == config_path_of(app_id as int),
    {
        String::from_str("/app/").concat(i64_to_string(app_id).as_str()).concat("/builder.toml")
    }

    /// The target image name, `app_id:stack_id`.
    pub fn image_name(&self, app_id: i64) -> (r: String)
        ensures
            r@ == image_name_of(app_id as int, self@.stack.id),
    {
        i64_to_string(app_id).concat(":").concat(self.stack.id.as_str())
    }

    /// The external builder-creation tool.
    pub fn builder_tool() -> (r: &'static str)
        ensures
            r@ == "pack"@,
    {
        "pack"
    }

    /// The argument list the builder tool is spawned with:
    /// `builder create <app_id>:<stack_id> --config <config_path>`.
    pub fn create_args(&self, app_id: i64) -> (r: Vec<String>)
        ensures
            r.deep_view() =~= seq![
                "builder"@,
                "create"@,
                image_name_of(app_id as int, self@.stack.id),
                "--config"@,
                config_path_of(app_id as int),
            ],
    {
        let mut args: Vec<String> = Vec::new();
        args.push(String::from_str("builder"));
        args.push(String::from_str("create"));
        args.push(self.image_name(app_id));
        args.push(String::from_str("--config"));
        args.push(Self::config_path(app_id));
        args
    }
}

} // verus!
