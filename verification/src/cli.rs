use vstd::prelude::*;

verus! {

/// The command line of the runtime: one subcommand.
pub struct Cli {
    pub command: Commands,
}

/// What the runtime is asked to do.
pub enum Commands {
    /// Run a new container from `image` (the bare root filesystem when there
    /// is none), detached or in the foreground.
    Run { name: String, detach: bool, image: Option<String>, command: Vec<String> },
    /// Build the image `name`.
    Build { name: String },
    /// List the containers.
    List,
    /// Stop a running container.
    Stop { name: String },
    /// Print the logs of a detached container.
    Logs { name: String },
    /// The runtime started again as the process of a new container.
    SpawnChildContainer {
        name: String,
        child_ip: String,
        lower: String,
        netns_ready_fd: i32,
        net_configured_fd: i32,
        command: Vec<String>,
    },
}

} // verus!
