//! The fixed set of compute engines and the decisions around pulling their
//! container images, at most once per process.

use crate::ingest::EngineError;
use crate::text::str_eq;
use vstd::prelude::*;

verus! {

/// A supported compute engine.
#[derive(Clone, Copy, Debug, PartialEq, Eq, Structural)]
pub enum EngineKind {
    Spark,
    Flink,
}

/// The container image of the Spark engine.
pub const SPARK_IMAGE: &'static str = "kamudata/engine-spark";

/// The container image of the Flink engine.
pub const FLINK_IMAGE: &'static str = "kamudata/engine-flink";

impl EngineKind {
    /// The engine named by an identifier.
    pub fn from_id(engine_id: &str) -> (r: Result<EngineKind, EngineError>)
        ensures
            engine_id@ == "spark"@ ==> r == Ok::<EngineKind, EngineError>(EngineKind::Spark),
            engine_id@ == "flink"@ ==> r == Ok::<EngineKind, EngineError>(EngineKind::Flink),
            engine_id@ != "spark"@ && engine_id@ != "flink"@ ==> (r matches Err(
                EngineError::ImageNotFound { image_name },
            ) && image_name@ == engine_id@),
    {
        proof {
            reveal_strlit("spark");
            reveal_strlit("flink");
            assert("spark"@ != "flink"@) by {
                assert("spark"@[0] != "flink"@[0]);
            }
        }
        if str_eq(engine_id, "spark") {
            Ok(EngineKind::Spark)
        } else if str_eq(engine_id, "flink") {
            Ok(EngineKind::Flink)
        } else {
            Err(EngineError::image_not_found(engine_id))
        }
    }

    /// The container image of the engine.
    pub fn image(&self) -> (r: &'static str)
        ensures
            *self == EngineKind::Spark ==> r@ == SPARK_IMAGE@,
            *self == EngineKind::Flink ==> r@ == FLINK_IMAGE@,
    {
        match self {
            EngineKind::Spark => SPARK_IMAGE,
            EngineKind::Flink => FLINK_IMAGE,
        }
    }
}

/// What must happen before an engine can be used.
#[derive(Clone, Copy, Debug, PartialEq, Eq, Structural)]
pub enum ImageAction {
    /// The image is known to be present.
    Ready,
    /// Ask the container runtime whether the image is present.
    CheckLocal,
    /// Pull the image.
    Pull,
}

/// Which engine images this process knows to be present.
pub struct EngineFactoryImpl {
    known_spark: bool,
    known_flink: bool,
}

impl EngineFactoryImpl {
    /// Whether the image of `kind` is known to be present.
    pub closed spec fn known(&self, kind: EngineKind) -> bool {
        match kind {
            EngineKind::Spark => self.known_spark,
            EngineKind::Flink => self.known_flink,
        }
    }

    /// No image is known yet.
    pub fn new() -> (r: EngineFactoryImpl)
        ensures
            !r.known(EngineKind::Spark),
            !r.known(EngineKind::Flink),
    {
        EngineFactoryImpl { known_spark: false, known_flink: false }
    }

    fn mark_known(&mut self, kind: EngineKind)
        ensures
            final(self).known(kind),
            forall|k: EngineKind| k != kind ==> final(self).known(k) == old(self).known(k),
    {
        match kind {
            EngineKind::Spark => self.known_spark = true,
            EngineKind::Flink => self.known_flink = true,
        }
    }

    /// The first step for using an engine: nothing once its image is known.
    pub fn image_action(&self, kind: EngineKind) -> (r: ImageAction)
        ensures
            r == (if self.known(kind) { ImageAction::Ready } else { ImageAction::CheckLocal }),
    {
        match kind {
            EngineKind::Spark => if self.known_spark { ImageAction::Ready } else { ImageAction::CheckLocal },
            EngineKind::Flink => if self.known_flink { ImageAction::Ready } else { ImageAction::CheckLocal },
        }
    }

    /// Records whether the runtime has the image: a present image becomes
    /// known; an absent one must be pulled.
    pub fn record_local_check(&mut self, kind: EngineKind, has_image: bool) -> (r: ImageAction)
        ensures
            has_image ==> r == ImageAction::Ready && final(self).known(kind),
            !has_image ==> r == ImageAction::Pull && final(self).known(kind) == old(self).known(kind),
            forall|k: EngineKind| k != kind ==> final(self).known(k) == old(self).known(k),
    {
        if has_image {
            self.mark_known(kind);
            ImageAction::Ready
        } else {
            ImageAction::Pull
        }
    }

    /// Records the outcome of pulling the image: the engine on success, and
    /// the image then known; `ImageNotFound` for the image otherwise.
    pub fn record_pull(&mut self, kind: EngineKind, pulled: bool) -> (r: Result<EngineKind, EngineError>)
        ensures
            pulled ==> r == Ok::<EngineKind, EngineError>(kind) && final(self).known(kind),
            !pulled ==> (r matches Err(EngineError::ImageNotFound { image_name }) && (kind == EngineKind::Spark
                ==> image_name@ == SPARK_IMAGE@) && (kind == EngineKind::Flink ==> image_name@ == FLINK_IMAGE@))
                && final(self).known(kind) == old(self).known(kind),
            forall|k: EngineKind| k != kind ==> final(self).known(k) == old(self).known(k),
    {
        if pulled {
            self.mark_known(kind);
            Ok(kind)
        } else {
            Err(EngineError::image_not_found(kind.image()))
        }
    }
}

/// An engine factory that has no engines.
pub struct EngineFactoryNull;

impl EngineFactoryNull {
    /// Always `ImageNotFound` for the identifier.
    pub fn get_engine(&self, engine_id: &str) -> (r: Result<EngineKind, EngineError>)
        ensures
            r matches Err(EngineError::ImageNotFound { image_name }) && image_name@ == engine_id@,
    {
        Err(EngineError::image_not_found(engine_id))
    }
}

} // verus!
