use vstd::prelude::*;

verus! {

/// Where log lines can be sent. `Off`, named "None", takes no logs.
#[derive(Clone, Copy, PartialEq, Eq, Structural, Debug)]
pub enum LoggerPlatforms {
    Redis,
    Off,
}

impl LoggerPlatforms {
    /// The platform's name.
    pub fn name(&self) -> (r: String)
        ensures
            r@ == (match self {
                LoggerPlatforms::Redis => "Redis"@,
                LoggerPlatforms::Off => "None"@,
            }),
    {
        match self {
            LoggerPlatforms::Redis => String::from_str("Redis"),
            LoggerPlatforms::Off => String::from_str("None"),
        }
    }
}

/// Buffers log lines until they are flushed to the platform.
pub struct LoggerBridge {
    platform: LoggerPlatforms,
    buffer: Vec<String>,
}

impl LoggerBridge {
    pub closed spec fn pending(&self) -> Seq<Seq<char>> {
        self.buffer@.map_values(|s: String| s@)
    }

    pub closed spec fn platform(&self) -> LoggerPlatforms {
        self.platform
    }

    /// A bridge to `platform` with nothing pending; a platform that cannot take
    /// logs is refused.
    pub fn new(platform: LoggerPlatforms) -> (r: Result<LoggerBridge, String>)
        ensures
            r is Ok <==> platform == LoggerPlatforms::Redis,
            r matches Ok(b) ==> b.pending() == Seq::<Seq<char>>::empty() && b.platform()
                == platform,
            r matches Err(e) ==> e@ == "Platform None not supported!"@,
    {
        match platform {
            LoggerPlatforms::Redis => Ok(LoggerBridge { platform, buffer: Vec::new() }),
            LoggerPlatforms::Off => Err(String::from_str("Platform None not supported!")),
        }
    }

    /// Queues a line.
    pub fn log(&mut self, msg: String)
        ensures
            final(self).pending() == old(self).pending().push(msg@),
            final(self).platform() == old(self).platform(),
    {
        let ghost m = msg@;
        self.buffer.push(msg);
        proof {
            assert(self.pending() =~= old(self).pending().push(m));
        }
    }

    /// Hands over the queued lines, oldest first, and empties the queue.
    pub fn flush(&mut self) -> (r: Vec<String>)
        ensures
            r@.map_values(|s: String| s@) == old(self).pending(),
            final(self).pending() == Seq::<Seq<char>>::empty(),
            final(self).platform() == old(self).platform(),
    {
        let mut out: Vec<String> = Vec::new();
        std::mem::swap(&mut out, &mut self.buffer);
        proof {
            assert(self.pending() =~= Seq::<Seq<char>>::empty());
        }
        out
    }
}

/// Sends the agent's log records to the broker through a bridge.
pub struct BrokerLogWriter {
    pub logger: LoggerBridge,
}

impl BrokerLogWriter {
    pub fn new(logger: LoggerBridge) -> (r: BrokerLogWriter)
        ensures
            r.logger == logger,
    {
        BrokerLogWriter { logger }
    }
}

} // verus!
