use vstd::prelude::*;

verus! {

/// What the path estimator has just learned about the ray it follows.
pub enum PathEvent {
    /// A ray is to be estimated with the remaining bounce budget.
    Start,
    /// The ray hits nothing in the scene.
    Missed,
    /// The ray hit a surface whose material absorbs it.
    Absorbed,
    /// The ray hit a surface whose material scatters it.
    Scattered,
}

/// What the path estimator does next.
#[derive(Debug, PartialEq, Eq, Structural)]
pub enum PathAction {
    /// Return black: the bounce budget is spent.
    ReturnBlack,
    /// Test the ray against the scene.
    TestHit,
    /// Return the background colour.
    ReturnBackground,
    /// Return the light emitted at the hit point alone.
    ReturnEmitted,
    /// Return the emitted light plus the attenuation times the estimate of the
    /// scattered ray, followed with budget `depth`.
    AddScattered { depth: i32 },
}

/// The decision of the recursive radiance estimator, given the bounce budget
/// `depth` of the current ray and what was just learned about it.
pub fn ray_color_step(depth: i32, event: PathEvent) -> (r: PathAction)
    requires
        event is Scattered ==> depth > i32::MIN,
    ensures
        r == (match event {
            PathEvent::Start => if depth <= 0 {
                PathAction::ReturnBlack
            } else {
                PathAction::TestHit
            },
            PathEvent::Missed => PathAction::ReturnBackground,
            PathEvent::Absorbed => PathAction::ReturnEmitted,
            PathEvent::Scattered => PathAction::AddScattered { depth: (depth - 1) as i32 },
        }),
{
    match event {
        PathEvent::Start => if depth <= 0 {
            PathAction::ReturnBlack
        } else {
            PathAction::TestHit
        },
        PathEvent::Missed => PathAction::ReturnBackground,
        PathEvent::Absorbed => PathAction::ReturnEmitted,
        PathEvent::Scattered => PathAction::AddScattered { depth: depth - 1 },
    }
}

/// What a bounding volume hierarchy node has learned while answering a ray
/// query; `T` is the type of the ray parameter.
pub enum NodeEvent<T> {
    /// The ray was tested against the node's box.
    BoxTested { hit: bool },
    /// The left child answered, with the parameter of its hit if any.
    LeftAnswered { left_t: Option<T> },
    /// The right child answered too.
    RightAnswered { left_hit: bool, right_hit: bool },
}

/// What the node does next.
pub enum NodeAction<T> {
    /// Report no hit.
    ReportMiss,
    /// Query the left child up to parameter `limit`.
    AskLeft { limit: T },
    /// Query the right child up to parameter `limit`.
    AskRight { limit: T },
    /// Report the left child's hit.
    ReportLeft,
    /// Report the right child's hit.
    ReportRight,
}

/// The decision of a hierarchy node queried up to parameter `t_max`: a ray
/// that misses the box gets no hit and no child is asked; the right child is
/// asked only up to the left child's hit; the right hit, found within that
/// limit, is reported before the left one.
pub fn bvh_node_step<T>(t_max: T, event: NodeEvent<T>) -> (r: NodeAction<T>)
    ensures
        r == (match event {
            NodeEvent::BoxTested { hit } => if hit {
                NodeAction::AskLeft { limit: t_max }
            } else {
                NodeAction::ReportMiss
            },
            NodeEvent::LeftAnswered { left_t } => NodeAction::AskRight {
                limit: match left_t {
                    Some(t) => t,
                    None => t_max,
                },
            },
            NodeEvent::RightAnswered { left_hit, right_hit } => if right_hit {
                NodeAction::ReportRight
            } else if left_hit {
                NodeAction::ReportLeft
            } else {
                NodeAction::ReportMiss
            },
        }),
{
    match event {
        NodeEvent::BoxTested { hit } => if hit {
            NodeAction::AskLeft { limit: t_max }
        } else {
            NodeAction::ReportMiss
        },
        NodeEvent::LeftAnswered { left_t } => NodeAction::AskRight {
            limit: match left_t {
                Some(t) => t,
                None => t_max,
            },
        },
        NodeEvent::RightAnswered { left_hit, right_hit } => if right_hit {
            NodeAction::ReportRight
        } else if left_hit {
            NodeAction::ReportLeft
        } else {
            NodeAction::ReportMiss
        },
    }
}

} // verus!
