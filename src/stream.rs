use vstd::prelude::*;

verus! {

/// What a payload store is told when it is allocated: a size threshold and the sizes the
/// new payload is expected to have.
#[derive(Debug, Clone, Copy, PartialEq, Eq, Structural)]
pub struct MyStreamConfig {
    pub value: bool,
    pub limit_size: Option<u64>,
    pub compress_size: Option<u64>,
    pub un_compress_size: Option<u64>,
    pub open_files: u16,
}

/// Whether an advertised size is over the threshold.
pub open spec fn over_limit(size: Option<u64>, limit: Option<u64>) -> bool {
    match (size, limit) {
        (Some(s), Some(l)) => s > l,
        _ => false,
    }
}

impl Default for MyStreamConfig {
    fn default() -> (r: MyStreamConfig)
        ensures
            r == (MyStreamConfig {
                value: false,
                limit_size: None,
                compress_size: None,
                un_compress_size: None,
                open_files: 0,
            }),
    {
        MyStreamConfig {
            value: false,
            limit_size: None,
            compress_size: None,
            un_compress_size: None,
            open_files: 0,
        }
    }
}

impl MyStreamConfig {
    pub fn compress_size(&self) -> (r: Option<u64>)
        ensures
            r == self.compress_size,
    {
        self.compress_size
    }

    pub fn un_compress_size(&self) -> (r: Option<u64>)
        ensures
            r == self.un_compress_size,
    {
        self.un_compress_size
    }

    pub fn compress_size_mut(&mut self, value: u64)
        ensures
            *final(self) == (MyStreamConfig { compress_size: Some(value), ..*old(self) }),
    {
        self.compress_size = Some(value);
    }

    pub fn un_compress_size_mut(&mut self, value: u64)
        ensures
            *final(self) == (MyStreamConfig { un_compress_size: Some(value), ..*old(self) }),
    {
        self.un_compress_size = Some(value);
    }

    /// The configuration for a payload with the given header sizes.
    pub fn with_sizes(&self, compressed_size: u32, uncompressed_size: u32) -> (r: MyStreamConfig)
        ensures
            r == (MyStreamConfig {
                compress_size: Some(compressed_size as u64),
                un_compress_size: Some(uncompressed_size as u64),
                ..*self
            }),
    {
        let mut c = *self;
        c.compress_size_mut(compressed_size as u64);
        c.un_compress_size_mut(uncompressed_size as u64);
        c
    }

    /// Whether a store allocated with this configuration goes to a temporary file: either
    /// advertised size is over the threshold.
    pub fn needs_temp_file(&self) -> (r: bool)
        ensures
            r == (over_limit(self.compress_size, self.limit_size) || over_limit(
                self.un_compress_size,
                self.limit_size,
            )),
    {
        if let (Some(size), Some(limit_size)) = (self.compress_size, self.limit_size) {
            if size > limit_size {
                return true;
            }
        }
        if let (Some(size), Some(limit_size)) = (self.un_compress_size, self.limit_size) {
            if size > limit_size {
                return true;
            }
        }
        false
    }
}

} // verus!
