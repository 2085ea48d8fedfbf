//! The station's own position, changeable while the receiver runs.
//!
//! The position resolves from configuration at startup; a persisted overlay,
//! written by a runtime change, wins over it; clearing the overlay returns to
//! the configured value. Every accepted change bumps a generation counter so
//! the decoder notices with one comparison. `P` is the position itself,
//! which this module never looks inside; checking it and writing the overlay
//! file are the caller's.
use crate::text::push_str;
use vstd::prelude::*;

verus! {

/// Where the position currently in force came from.
#[derive(Clone, Debug, PartialEq, Eq)]
pub enum StationOrigin {
    /// Nothing anywhere set one.
    Unset,
    /// Resolved from defaults, the config file, or the environment.
    Configured(String),
    /// The runtime overlay file, written by a previous change.
    Overlay(String),
    /// Set through the API during this run, and persisted.
    Runtime,
}

impl StationOrigin {
    pub open spec fn text(self) -> Seq<char> {
        match self {
            StationOrigin::Unset => "unset"@,
            StationOrigin::Configured(origin) => origin@,
            StationOrigin::Overlay(path) => path@,
            StationOrigin::Runtime => "set at runtime"@,
        }
    }

    pub fn as_str(&self) -> (s: &str)
        ensures
            s@ == self.text(),
    {
        match self {
            StationOrigin::Unset => "unset",
            StationOrigin::Configured(origin) => origin.as_str(),
            StationOrigin::Overlay(path) => path.as_str(),
            StationOrigin::Runtime => "set at runtime",
        }
    }
}

/// The refusal when station writes are disabled.
pub open spec fn read_only_message() -> Seq<char> {
    "this receiver was started with station writes disabled (station_writable = false)"@
}

/// The station position and its bookkeeping.
pub struct StationBook<P> {
    current: Option<P>,
    origin: StationOrigin,
    configured: Option<P>,
    configured_origin: String,
    generation: u64,
    writable: bool,
}

impl<P: Copy> StationBook<P> {
    pub closed spec fn current_spec(self) -> Option<P> {
        self.current
    }

    pub closed spec fn origin_spec(self) -> StationOrigin {
        self.origin
    }

    pub closed spec fn configured_spec(self) -> Option<P> {
        self.configured
    }

    pub closed spec fn configured_origin_spec(self) -> Seq<char> {
        self.configured_origin@
    }

    pub closed spec fn generation_spec(self) -> u64 {
        self.generation
    }

    pub closed spec fn writable_spec(self) -> bool {
        self.writable
    }

    /// Resolve the startup position: configuration, then the overlay on top.
    /// `overlay` is what reading the overlay file gave: a position, nothing
    /// (no file), or the reason it could not be read. A bad overlay only
    /// warns: the configured value stands.
    pub fn load(
        configured: Option<P>,
        configured_origin: String,
        overlay_path: Option<String>,
        overlay: Result<Option<P>, String>,
        writable: bool,
    ) -> (r: (StationBook<P>, Option<String>))
        ensures
            r.0.configured_spec() == configured,
            r.0.configured_origin_spec() == configured_origin@,
            r.0.generation_spec() == 0,
            r.0.writable_spec() == writable,
            (match (overlay_path, overlay) {
                (Some(path), Ok(Some(p))) => r.0.current_spec() == Some(p)
                    && r.0.origin_spec() == StationOrigin::Overlay(path) && r.1 is None,
                (Some(path), Err(e)) => r.0.current_spec() == configured && (r.1 matches Some(w) && w@
                    == "ignoring "@ + path@ + ": "@ + e@ + ". Falling back to the configured position"@),
                _ => r.0.current_spec() == configured && r.1 is None,
            }),
            !(overlay_path is Some && overlay matches Ok(Some(_))) ==> r.0.origin_spec() == (match configured {
                Some(_) => StationOrigin::Configured(configured_origin),
                None => StationOrigin::Unset,
            }),
    {
        let mut warning: Option<String> = None;
        let mut current = configured;
        let mut origin = match configured {
            Some(_) => StationOrigin::Configured(configured_origin.clone()),
            None => StationOrigin::Unset,
        };
        match overlay_path {
            Some(path) => match overlay {
                Ok(Some(p)) => {
                    current = Some(p);
                    origin = StationOrigin::Overlay(path);
                },
                Ok(None) => {},
                Err(e) => {
                    let mut w = String::new();
                    push_str(&mut w, "ignoring ");
                    push_str(&mut w, path.as_str());
                    push_str(&mut w, ": ");
                    push_str(&mut w, e.as_str());
                    push_str(&mut w, ". Falling back to the configured position");
                    warning = Some(w);
                },
            },
            None => {},
        }
        (
            StationBook { current, origin, configured, configured_origin, generation: 0, writable },
            warning,
        )
    }

    pub fn get(&self) -> (p: Option<P>)
        ensures
            p == self.current_spec(),
    {
        self.current
    }

    pub fn origin(&self) -> (o: StationOrigin)
        ensures
            o == self.origin_spec(),
    {
        match &self.origin {
            StationOrigin::Unset => StationOrigin::Unset,
            StationOrigin::Configured(s) => StationOrigin::Configured(s.clone()),
            StationOrigin::Overlay(s) => StationOrigin::Overlay(s.clone()),
            StationOrigin::Runtime => StationOrigin::Runtime,
        }
    }

    pub fn generation(&self) -> (g: u64)
        ensures
            g == self.generation_spec(),
    {
        self.generation
    }

    pub fn is_writable(&self) -> (w: bool)
        ensures
            w == self.writable_spec(),
    {
        self.writable
    }

    /// The position configuration alone would have produced.
    pub fn configured(&self) -> (p: Option<P>)
        ensures
            p == self.configured_spec(),
    {
        self.configured
    }

    pub fn configured_origin(&self) -> (s: &str)
        ensures
            s@ == self.configured_origin_spec(),
    {
        self.configured_origin.as_str()
    }

    /// Whether the position in force came from the overlay or a runtime
    /// change while configuration also names one. The caller compares the
    /// two positions to tell whether the overlay actually shadows it.
    pub fn overlay_in_force_over_config(&self) -> (b: bool)
        ensures
            b == ((self.origin_spec() is Overlay || self.origin_spec() is Runtime)
                && self.configured_spec() is Some),
    {
        match self.origin {
            StationOrigin::Overlay(_) | StationOrigin::Runtime => self.configured.is_some(),
            _ => false,
        }
    }

    /// Move the station to `p`. `checked` is what validating `p` and
    /// persisting it gave the caller: a position that is refused, or that
    /// could not be saved, leaves the station where it was.
    pub fn set(&mut self, p: P, checked: Result<(), String>) -> (r: Result<(), String>)
        ensures
            r is Err <==> (!old(self).writable_spec() || checked is Err),
            !old(self).writable_spec() ==> (r matches Err(e) && e@ == read_only_message()),
            old(self).writable_spec() ==> (checked matches Err(c) ==> r matches Err(e) && e@ == c@),
            r is Err ==> *final(self) == *old(self),
            r is Ok ==> final(self).current_spec() == Some(p) && final(self).origin_spec()
                == StationOrigin::Runtime && final(self).generation_spec() == (if old(self).generation_spec()
                == u64::MAX {
                u64::MAX
            } else {
                (old(self).generation_spec() + 1) as u64
            }),
            final(self).configured_spec() == old(self).configured_spec(),
            final(self).configured_origin_spec() == old(self).configured_origin_spec(),
            final(self).writable_spec() == old(self).writable_spec(),
    {
        if !self.writable {
            return Err(
                "this receiver was started with station writes disabled (station_writable = false)".to_owned(),
            );
        }
        if let Err(e) = checked {
            return Err(e);
        }
        self.current = Some(p);
        self.origin = StationOrigin::Runtime;
        self.generation = self.generation.saturating_add(1);
        Ok(())
    }

    /// Go back to what configuration says. `removed` is what removing the
    /// saved overlay gave the caller: if that failed, nothing changes.
    pub fn clear(&mut self, removed: Result<(), String>) -> (r: Result<(), String>)
        ensures
            r is Err <==> (!old(self).writable_spec() || removed is Err),
            !old(self).writable_spec() ==> (r matches Err(e) && e@ == read_only_message()),
            old(self).writable_spec() ==> (removed matches Err(c) ==> r matches Err(e) && e@ == c@),
            r is Err ==> *final(self) == *old(self),
            r is Ok ==> final(self).current_spec() == old(self).configured_spec() && (match old(
                self,
            ).configured_spec() {
                Some(_) => (final(self).origin_spec() matches StationOrigin::Configured(s) && s@
                    == old(self).configured_origin_spec()),
                None => final(self).origin_spec() == StationOrigin::Unset,
            }) && final(self).generation_spec() == (if old(self).generation_spec() == u64::MAX {
                u64::MAX
            } else {
                (old(self).generation_spec() + 1) as u64
            }),
            final(self).configured_spec() == old(self).configured_spec(),
            final(self).configured_origin_spec() == old(self).configured_origin_spec(),
            final(self).writable_spec() == old(self).writable_spec(),
    {
        if !self.writable {
            return Err(
                "this receiver was started with station writes disabled (station_writable = false)".to_owned(),
            );
        }
        if let Err(e) = removed {
            return Err(e);
        }
        self.current = self.configured;
        self.origin = match self.configured {
            Some(_) => StationOrigin::Configured(self.configured_origin.clone()),
            None => StationOrigin::Unset,
        };
        self.generation = self.generation.saturating_add(1);
        Ok(())
    }
}

} // verus!
