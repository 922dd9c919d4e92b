//! The `web` command family: names, descriptions and options of each command.

use vstd::prelude::*;

verus! {

/// A command-line option a command accepts.
#[derive(Clone, Copy, Debug)]
pub struct OptionSpec {
    pub name: &'static str,
    pub description: &'static str,
    pub takes_value: bool,
    pub required: bool,
    pub default_value: Option<&'static str>,
    pub short: Option<char>,
}

/// The `--port` option (default 3000, short `-p`).
fn port_option() -> (o: OptionSpec)
    ensures
        o.name@ == "port"@,
        o.takes_value,
        !o.required,
        o.short == Some('p'),
        o.default_value matches Some(d) && d@ == "3000"@,
{
    OptionSpec {
        name: "port",
        description: "Port to listen on",
        takes_value: true,
        required: false,
        default_value: Some("3000"),
        short: Some('p'),
    }
}

/// The `--host` option (default 127.0.0.1).
fn host_option() -> (o: OptionSpec)
    ensures
        o.name@ == "host"@,
        o.takes_value,
        !o.required,
        o.short is None,
        o.default_value matches Some(d) && d@ == "127.0.0.1"@,
{
    OptionSpec {
        name: "host",
        description: "Host to bind to",
        takes_value: true,
        required: false,
        default_value: Some("127.0.0.1"),
        short: None,
    }
}

/// An optional value-taking option without default or short form.
fn plain_option(name: &'static str, description: &'static str) -> (o: OptionSpec)
    ensures
        o.name == name,
        o.description == description,
        o.takes_value,
        !o.required,
        o.default_value is None,
        o.short is None,
{
    OptionSpec { name, description, takes_value: true, required: false, default_value: None, short: None }
}

/// The names of a list of options.
pub open spec fn option_names(v: Seq<OptionSpec>) -> Seq<Seq<char>> {
    Seq::new(v.len(), |i: int| v[i].name@)
}

/// `web:build`: compile `.volki` files to Rust.
pub struct WebBuildCommand;

impl WebBuildCommand {
    pub fn name(&self) -> (r: &'static str)
        ensures
            r@ == "web:build"@,
    {
        "web:build"
    }

    pub fn description(&self) -> (r: &'static str)
        ensures
            r@ == "Compile .volki files to Rust"@,
    {
        "Compile .volki files to Rust"
    }

    pub fn long_description(&self) -> (r: &'static str)
        ensures
            r@ == "Walks a directory for .volki files and compiles each one into a .rs file with equivalent Rust builder calls."@,
    {
        "Walks a directory for .volki files and compiles each one into a .rs file with equivalent Rust builder calls."
    }

    /// One option: `--path` (default `.`), the source directory.
    pub fn options(&self) -> (r: Vec<OptionSpec>)
        ensures
            r@.len() == 1,
            r@[0].name@ == "path"@,
            r@[0].takes_value,
            !r@[0].required,
            r@[0].default_value matches Some(d) && d@ == "."@,
            r@[0].short is None,
    {
        let mut opts = Vec::new();
        opts.push(OptionSpec {
            name: "path",
            description: "Source directory to scan",
            takes_value: true,
            required: false,
            default_value: Some("."),
            short: None,
        });
        opts
    }

    pub fn requires_config(&self) -> (r: bool)
        ensures
            r,
    {
        true
    }
}

/// `web:dev`: development server that interprets `.volki` at runtime.
pub struct WebDevCommand;

impl WebDevCommand {
    pub fn name(&self) -> (r: &'static str)
        ensures
            r@ == "web:dev"@,
    {
        "web:dev"
    }

    pub fn description(&self) -> (r: &'static str)
        ensures
            r@ == "Start development server (interprets .volki at runtime)"@,
    {
        "Start development server (interprets .volki at runtime)"
    }

    pub fn long_description(&self) -> (r: &'static str)
        ensures
            r@ == "Starts a development server that reads and interprets .volki files at runtime without a cargo build step. Pages are parsed and served immediately. Fragment functions are resolved, CSS is generated, metadata is extracted, and client interactivity is compiled to WASM at startup. For production builds, use web:build + web:start."@,
    {
        "Starts a development server that reads and interprets .volki files at runtime without a cargo build step. Pages are parsed and served immediately. Fragment functions are resolved, CSS is generated, metadata is extracted, and client interactivity is compiled to WASM at startup. For production builds, use web:build + web:start."
    }

    /// `--port` (default 3000, `-p`) and `--host` (default 127.0.0.1).
    pub fn options(&self) -> (r: Vec<OptionSpec>)
        ensures
            option_names(r@) == seq!["port"@, "host"@],
    {
        let mut opts = Vec::new();
        opts.push(port_option());
        opts.push(host_option());
        proof { assert(option_names(opts@) =~= seq!["port"@, "host"@]); }
        opts
    }

    pub fn requires_config(&self) -> (r: bool)
        ensures
            r,
    {
        true
    }
}

/// `web`: lists the web subcommands.
pub struct WebHubCommand;

impl WebHubCommand {
    pub fn name(&self) -> (r: &'static str)
        ensures
            r@ == "web"@,
    {
        "web"
    }

    pub fn description(&self) -> (r: &'static str)
        ensures
            r@ == "Web framework commands"@,
    {
        "Web framework commands"
    }

    pub fn long_description(&self) -> (r: &'static str)
        ensures
            r@ == "Build and serve web applications using the volki web framework."@,
    {
        "Build and serve web applications using the volki web framework."
    }

    /// No options.
    pub fn options(&self) -> (r: Vec<OptionSpec>)
        ensures
            r@.len() == 0,
    {
        Vec::new()
    }

    pub fn requires_config(&self) -> (r: bool)
        ensures
            !r,
    {
        false
    }
}

/// `web:start`: the production web server.
pub struct WebStartCommand;

impl WebStartCommand {
    pub fn name(&self) -> (r: &'static str)
        ensures
            r@ == "web:start"@,
    {
        "web:start"
    }

    pub fn description(&self) -> (r: &'static str)
        ensures
            r@ == "Start the web server"@,
    {
        "Start the web server"
    }

    pub fn long_description(&self) -> (r: &'static str)
        ensures
            r@ == "Starts a web server. Users configure routes programmatically."@,
    {
        "Starts a web server. Users configure routes programmatically."
    }

    /// Port, host, TLS certificate and key, body size limit, read timeout, rate limit.
    pub fn options(&self) -> (r: Vec<OptionSpec>)
        ensures
            option_names(r@) == seq!["port"@, "host"@, "tls-cert"@, "tls-key"@, "max-body-size"@, "read-timeout"@, "rate-limit"@],
    {
        let mut opts = Vec::new();
        opts.push(port_option());
        opts.push(host_option());
        opts.push(plain_option("tls-cert", "Path to TLS certificate PEM file"));
        opts.push(plain_option("tls-key", "Path to TLS private key PEM file"));
        opts.push(plain_option("max-body-size", "Max request body size in bytes"));
        opts.push(plain_option("read-timeout", "Read timeout in seconds"));
        opts.push(plain_option("rate-limit", "Global rate limit as requests/seconds (e.g. 100/60)"));
        proof {
            assert(option_names(opts@) =~= seq!["port"@, "host"@, "tls-cert"@, "tls-key"@, "max-body-size"@, "read-timeout"@, "rate-limit"@]);
        }
        opts
    }

    pub fn requires_config(&self) -> (r: bool)
        ensures
            r,
    {
        true
    }
}

} // verus!
