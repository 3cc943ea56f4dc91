//! The route model: a single route, a named group of routes, and the
//! configuration document that describes them, together with the validation
//! that runs before a configuration is accepted.

use crate::error::BunBunError;
use crate::index::RouteIndex;
use vstd::prelude::*;

verus! {

/// A route points either at an external redirect template (e.g. a URL) or at
/// a local file to execute.
#[derive(Debug, Clone, Copy, PartialEq, Eq, Structural)]
pub enum RouteType {
    External,
    Internal,
}

/// A single keyword's resolution target plus its argument-count constraints.
#[derive(Debug)]
pub struct Route {
    pub route_type: RouteType,
    pub path: String,
    pub hidden: bool,
    pub description: Option<String>,
    pub min_args: Option<usize>,
    pub max_args: Option<usize>,
}

/// A named, orderable collection of routes. Keywords are unique within a
/// group; groups are merged with later-wins semantics.
#[derive(Debug, Clone)]
pub struct RouteGroup {
    pub name: String,
    pub description: Option<String>,
    pub hidden: bool,
    pub routes: RouteIndex,
}

/// A parsed configuration document.
#[derive(Debug)]
pub struct Config {
    pub bind_address: String,
    pub public_address: String,
    pub default_route: Option<String>,
    pub groups: Vec<RouteGroup>,
}

impl Clone for Route {
    fn clone(&self) -> (r: Route)
        ensures
            r == *self,
    {
        Route {
            route_type: self.route_type,
            path: self.path.clone(),
            hidden: self.hidden,
            description: match &self.description {
                Some(d) => Some(d.clone()),
                None => None,
            },
            min_args: self.min_args,
            max_args: self.max_args,
        }
    }
}

impl PartialEq for Route {
    fn eq(&self, other: &Route) -> (r: bool) {
        self.route_type == other.route_type && self.path == other.path && self.hidden
            == other.hidden && match (&self.description, &other.description) {
            (Some(a), Some(b)) => *a == *b,
            (None, None) => true,
            _ => false,
        } && match (self.min_args, other.min_args) {
            (Some(a), Some(b)) => a == b,
            (None, None) => true,
            _ => false,
        } && match (self.max_args, other.max_args) {
            (Some(a), Some(b)) => a == b,
            (None, None) => true,
            _ => false,
        }
    }
}

impl vstd::std_specs::cmp::PartialEqSpecImpl for Route {
    open spec fn obeys_eq_spec() -> bool {
        true
    }

    open spec fn eq_spec(&self, other: &Route) -> bool {
        &&& self.route_type == other.route_type
        &&& self.path@ == other.path@
        &&& self.hidden == other.hidden
        &&& match (self.description, other.description) {
            (Some(a), Some(b)) => a@ == b@,
            (None, None) => true,
            _ => false,
        }
        &&& self.min_args == other.min_args
        &&& self.max_args == other.max_args
    }
}

/// Relies on std's `Path::exists`: reports whether `path` names an entry in
/// the local filesystem. The answer depends on the state of the disk, so
/// nothing is promised of it.
#[verifier::external_body]
fn path_exists(path: &str) -> bool {
    std::path::Path::new(path).exists()
}

/// The classification a path string receives when the filesystem probe gave
/// `exists_locally`: a path present on disk is a local executable, any other
/// string is assumed to be a web path.
pub fn route_type_of(exists_locally: bool) -> (t: RouteType)
    ensures
        t == (if exists_locally {
            RouteType::Internal
        } else {
            RouteType::External
        }),
{
    if exists_locally {
        RouteType::Internal
    } else {
        RouteType::External
    }
}

/// Classifies the path depending on whether there exists a local file. The
/// result follows `route_type_of` applied to a filesystem probe; because it
/// depends on the disk, no more can be said of it.
pub fn get_route_type(path: &str) -> RouteType {
    route_type_of(path_exists(path))
}

impl Route {
    /// The shorthand form: a bare path string stands for a route with every
    /// optional field absent. The route type comes from the filesystem probe.
    pub fn from_path(path: String) -> (r: Route)
        ensures
            r.path == path,
            !r.hidden,
            r.description is None,
            r.min_args is None,
            r.max_args is None,
    {
        let route_type = get_route_type(path.as_str());
        Route { route_type, path, hidden: false, description: None, min_args: None, max_args: None }
    }

    /// The long form: every field spelled out. Construction fails exactly
    /// when both argument bounds are present and the lower exceeds the upper.
    pub fn from_parts(
        path: String,
        hidden: bool,
        description: Option<String>,
        min_args: Option<usize>,
        max_args: Option<usize>,
    ) -> (r: Result<Route, BunBunError>)
        ensures
            match r {
                Ok(route) => {
                    &&& route.path == path
                    &&& route.hidden == hidden
                    &&& route.description == description
                    &&& route.min_args == min_args
                    &&& route.max_args == max_args
                    &&& !(min_args matches Some(lo) && max_args matches Some(hi) && lo > hi)
                },
                Err(e) => {
                    &&& min_args matches Some(lo) && max_args matches Some(hi) && lo > hi
                    &&& e matches BunBunError::Parse(_)
                },
            },
    {
        if let (Some(lo), Some(hi)) = (min_args, max_args) {
            if lo > hi {
                return Err(
                    BunBunError::Parse(
                        String::from_str("invalid value: argument count range, expected a valid argument count range"),
                    ),
                );
            }
        }
        let route_type = get_route_type(path.as_str());
        Ok(Route { route_type, path, hidden, description, min_args, max_args })
    }

    /// The route rendered for a human: its kind and its path.
    pub fn display_string(&self) -> (r: String)
        ensures
            r@ == (match self.route_type {
                RouteType::External => "raw ("@ + self.path@ + ")"@,
                RouteType::Internal => "file ("@ + self.path@ + ")"@,
            }),
    {
        let prefix = match self.route_type {
            RouteType::External => "raw (",
            RouteType::Internal => "file (",
        };
        let r = String::from_str(prefix).concat(self.path.as_str()).concat(")");
        proof {
            assert(r@ =~= (match self.route_type {
                RouteType::External => "raw ("@ + self.path@ + ")"@,
                RouteType::Internal => "file ("@ + self.path@ + ")"@,
            }));
        }
        r
    }
}

/// Configuration files larger than this many bytes are rejected unless the
/// caller explicitly allows large configurations.
pub const LARGE_FILE_SIZE_THRESHOLD: u64 = 100_000_000;

/// Checks the byte length of a configuration document before any parsing is
/// attempted: an oversize file is rejected unless `large_config` is set, and
/// an empty file is always rejected.
pub fn validate_config_size(file_size: u64, large_config: bool) -> (r: Result<(), BunBunError>)
    ensures
        r == (if file_size > LARGE_FILE_SIZE_THRESHOLD && !large_config {
            Err::<(), BunBunError>(BunBunError::ConfigTooLarge(file_size))
        } else if file_size == 0 {
            Err::<(), BunBunError>(BunBunError::ZeroByteConfig)
        } else {
            Ok::<(), BunBunError>(())
        }),
{
    if file_size > LARGE_FILE_SIZE_THRESHOLD && !large_config {
        Err(BunBunError::ConfigTooLarge(file_size))
    } else if file_size == 0 {
        Err(BunBunError::ZeroByteConfig)
    } else {
        Ok(())
    }
}

/// The name under which a configuration file is looked for.
pub open spec fn spec_config_filename() -> Seq<char> {
    "bunbun.yaml"@
}

/// `folder` with the configuration file name appended, inserting a path
/// separator unless the folder already ends with one.
pub open spec fn spec_config_path(folder: Seq<char>) -> Seq<char> {
    if folder.len() > 0 && folder.last() == '/' {
        folder + spec_config_filename()
    } else {
        folder + "/"@ + spec_config_filename()
    }
}

/// Appends the configuration file name to a folder path.
pub fn config_path_in(folder: String) -> (r: String)
    ensures
        r@ == spec_config_path(folder@),
{
    let n = folder.as_str().unicode_len();
    let ends_with_sep = n > 0 && folder.as_str().get_char(n - 1) == '/';
    let r = if ends_with_sep {
        folder.concat("bunbun.yaml")
    } else {
        folder.concat("/").concat("bunbun.yaml")
    };
    proof {
        assert(r@ =~= spec_config_path(folder@));
    }
    r
}

/// The candidate configuration locations, highest priority first: the
/// system-wide configuration directory, then the user's configuration
/// directory, then the user's home directory, each with the configuration
/// file name appended. The latter two are consulted only when the caller
/// could determine them.
pub fn config_locations(config_dir: Option<String>, home_dir: Option<String>) -> (r: Vec<String>)
    ensures
        r.deep_view() == {
            let base = seq![spec_config_path("/etc/"@)];
            let with_config = match config_dir {
                Some(d) => base.push(spec_config_path(d@)),
                None => base,
            };
            match home_dir {
                Some(d) => with_config.push(spec_config_path(d@)),
                None => with_config,
            }
        },
{
    let mut locations: Vec<String> = Vec::new();
    locations.push(config_path_in(String::from_str("/etc/")));
    if let Some(d) = config_dir {
        locations.push(config_path_in(d));
    }
    if let Some(d) = home_dir {
        locations.push(config_path_in(d));
    }
    proof {
        assert(locations.deep_view() =~= {
            let base = seq![spec_config_path("/etc/"@)];
            let with_config = match config_dir {
                Some(d) => base.push(spec_config_path(d@)),
                None => base,
            };
            match home_dir {
                Some(d) => with_config.push(spec_config_path(d@)),
                None => with_config,
            }
        });
    }
    locations
}

} // verus!
