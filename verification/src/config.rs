//! The configuration of a site.

use vstd::prelude::*;
use vstd::string::StringExecFns;

verus! {

/// A local port.
pub type Port = u16;

/// The port on which the development server listens unless told otherwise.
pub const DEFAULT_PORT: Port = 3000;

/// The port of the reload channel unless told otherwise.
pub const DEFAULT_PORT_WS: Port = 3001;

/// The output folder in development. It takes the place of whatever output
/// folder the configuration names.
pub const DEV_BUILD_DIR: &'static str = ".devbuild";

/// The configuration of a site.
#[derive(Debug)]
pub struct Config {
    /// Output folder for built files.
    pub build: String,
    /// Source folder for template files.
    pub templates: String,
    /// Source folder for style files.
    pub styles: String,
    /// Source folder for static public files.
    pub public: String,
    /// Whether an undefined variable or partial in a template is an error.
    pub strict: bool,
    /// Whether the output is minified.
    pub minify: bool,
    /// The port of the development server.
    pub port: Port,
    /// The port of the reload channel.
    pub port_ws: Port,
}

/// A [`Config`] as contracts speak of it.
pub struct ConfigView {
    pub build: Seq<char>,
    pub templates: Seq<char>,
    pub styles: Seq<char>,
    pub public: Seq<char>,
    pub strict: bool,
    pub minify: bool,
    pub port: Port,
    pub port_ws: Port,
}

impl View for Config {
    type V = ConfigView;

    open spec fn view(&self) -> ConfigView {
        ConfigView {
            build: self.build@,
            templates: self.templates@,
            styles: self.styles@,
            public: self.public@,
            strict: self.strict,
            minify: self.minify,
            port: self.port,
            port_ws: self.port_ws,
        }
    }
}

/// The configuration that `Config::default()` gives.
pub open spec fn default_config() -> ConfigView {
    ConfigView {
        build: "build"@,
        templates: "templates"@,
        styles: "styles"@,
        public: "public"@,
        strict: false,
        minify: true,
        port: DEFAULT_PORT,
        port_ws: DEFAULT_PORT_WS,
    }
}

impl Default for Config {
    fn default() -> (config: Self)
        ensures
            config@ == default_config(),
    {
        Config {
            build: String::from_str("build"),
            templates: String::from_str("templates"),
            styles: String::from_str("styles"),
            public: String::from_str("public"),
            strict: false,
            minify: true,
            port: DEFAULT_PORT,
            port_ws: DEFAULT_PORT_WS,
        }
    }
}

/// The configuration with which a site is built: in development the output
/// goes to the development folder, whatever `build` says.
pub open spec fn effective_config(config: ConfigView, is_dev: bool) -> ConfigView {
    if is_dev {
        ConfigView { build: DEV_BUILD_DIR@, ..config }
    } else {
        config
    }
}

impl Config {
    /// The configuration with which the site is built.
    pub fn effective(self, is_dev: bool) -> (config: Self)
        ensures
            config@ == effective_config(self@, is_dev),
    {
        if is_dev {
            let mut config = self;
            config.build = String::from_str(DEV_BUILD_DIR);
            config
        } else {
            self
        }
    }
}

} // verus!
