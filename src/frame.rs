//! What one image yields once the detector has run: the overlays to draw, the
//! labels to report and the place to write the annotated frame.
use vstd::prelude::*;
use crate::catalog::ClassCatalog;
use crate::paths::{output_directory, output_file, resolve_output, OutputLocation};

verus! {

/// Side length, in pixels, of the square frame that the detector reads and that
/// receives the overlays.
pub const FRAME_SIZE: i32 = 416;

/// An axis-aligned box in frame pixels.
#[derive(Clone, Copy, Debug, PartialEq, Eq, Structural)]
pub struct BoundingBox {
    pub x: i32,
    pub y: i32,
    pub width: i32,
    pub height: i32,
}

/// One object found by the detector: its class id and where it is. The
/// detector's confidence is not kept: nothing here depends on it.
#[derive(Clone, Copy, Debug, PartialEq, Eq, Structural)]
pub struct Detection {
    pub class_id: i32,
    pub bbox: BoundingBox,
}

/// One overlay: a box and the label drawn at its top edge.
pub struct Annotation {
    pub bbox: BoundingBox,
    pub label: String,
}

/// The work that follows detection on one image.
pub struct FramePlan {
    /// Overlays, one per detection, in detection order.
    pub annotations: Vec<Annotation>,
    /// Labels, one per detection, in detection order.
    pub labels: Vec<String>,
    /// Where the annotated frame is written; present also when nothing was found.
    pub output: OutputLocation,
}

/// Why a frame could not be planned.
#[derive(Clone, Copy, Debug, PartialEq, Eq, Structural)]
pub enum FrameError {
    /// The detector reported a class id that the catalog does not hold.
    UnknownClass(i32),
}

/// Whether class id `id` names an entry of catalog `names`.
pub open spec fn known_class(names: Seq<Seq<char>>, id: i32) -> bool {
    0 <= id < names.len()
}

/// Whether every detection of `d` has a class in `names`.
pub open spec fn all_known(names: Seq<Seq<char>>, d: Seq<Detection>) -> bool {
    forall|i: int| 0 <= i < d.len() ==> known_class(names, #[trigger] d[i].class_id)
}

/// Index of the first detection of `d` whose class is not in `names`, or `d.len()`.
pub open spec fn first_unknown(names: Seq<Seq<char>>, d: Seq<Detection>) -> int
    decreases d.len(),
{
    if d.len() == 0 {
        0
    } else if !known_class(names, d[0].class_id) {
        0
    } else {
        1 + first_unknown(names, d.drop_first())
    }
}

/// The labels of detections `d`, looked up in `names`, in order.
pub open spec fn labels_of(names: Seq<Seq<char>>, d: Seq<Detection>) -> Seq<Seq<char>> {
    d.map_values(|x: Detection| names[x.class_id as int])
}

/// Where the label of box `b` is drawn, for text of height `text_height`: at the
/// box's left edge, one text height above its top edge.
pub open spec fn label_origin_spec(b: BoundingBox, text_height: i32) -> (int, int) {
    (b.x as int, b.y - text_height)
}

proof fn lemma_first_unknown(names: Seq<Seq<char>>, d: Seq<Detection>, k: int)
    requires
        0 <= k <= d.len(),
        forall|i: int| 0 <= i < k ==> known_class(names, #[trigger] d[i].class_id),
        k < d.len() ==> !known_class(names, d[k].class_id),
    ensures
        first_unknown(names, d) == k,
    decreases d.len(),
{
    if d.len() > 0 && k > 0 {
        assert forall|i: int| 0 <= i < k - 1 implies known_class(
            names,
            #[trigger] d.drop_first()[i].class_id,
        ) by {
            assert(d.drop_first()[i] == d[i + 1]);
        }
        lemma_first_unknown(names, d.drop_first(), k - 1);
    }
}

/// The point at which the label of box `b` is drawn, for text `text_height` high.
pub fn label_origin(b: BoundingBox, text_height: i32) -> (r: (i32, i32))
    requires
        i32::MIN <= b.y - text_height <= i32::MAX,
    ensures
        (r.0 as int, r.1 as int) == label_origin_spec(b, text_height),
{
    (b.x, b.y - text_height)
}

/// Plans the annotation of one image from the detections found in it: one box and
/// one label per detection, in detection order, and the output location derived
/// from `image_path`. Fails on the first detection whose class the catalog lacks.
pub fn plan_frame(image_path: &str, detections: &Vec<Detection>, catalog: &ClassCatalog) -> (r:
    Result<FramePlan, FrameError>)
    ensures
        match r {
            Ok(p) => {
                &&& all_known(catalog@, detections@)
                &&& p.labels@.map_values(|s: String| s@) == labels_of(catalog@, detections@)
                &&& p.labels@.len() == detections@.len()
                &&& p.annotations@.len() == detections@.len()
                &&& forall|i: int|
                    0 <= i < detections@.len() ==> (#[trigger] p.annotations@[i]).bbox
                        == detections@[i].bbox && p.annotations@[i].label@
                        == catalog@[detections@[i].class_id as int]
                &&& p.output.directory@ == output_directory(image_path@)
                &&& p.output.file_path@ == output_file(image_path@)
            },
            Err(FrameError::UnknownClass(id)) => {
                &&& !all_known(catalog@, detections@)
                &&& id == detections@[first_unknown(catalog@, detections@)].class_id
            },
        },
{
    let mut annotations: Vec<Annotation> = Vec::new();
    let mut labels: Vec<String> = Vec::new();
    let mut i: usize = 0;
    while i < detections.len()
        invariant
            i <= detections@.len(),
            forall|k: int| 0 <= k < i ==> known_class(catalog@, #[trigger] detections@[k].class_id),
            labels@.map_values(|s: String| s@) == labels_of(catalog@, detections@.subrange(
                0,
                i as int,
            )),
            annotations@.len() == i,
            labels@.len() == i,
            forall|k: int|
                0 <= k < i ==> (#[trigger] annotations@[k]).bbox == detections@[k].bbox
                    && annotations@[k].label@ == catalog@[detections@[k].class_id as int],
        decreases detections@.len() - i,
    {
        let d = detections[i];
        match catalog.label(d.class_id) {
            Some(label) => {
                let ghost old_labels = labels@;
                annotations.push(Annotation { bbox: d.bbox, label: label.clone() });
                labels.push(label);
                proof {
                    assert(detections@.subrange(0, i + 1) =~= detections@.subrange(
                        0,
                        i as int,
                    ).push(d));
                    assert(labels@.map_values(|s: String| s@) =~= old_labels.map_values(
                        |s: String| s@,
                    ).push(label@));
                    assert(labels_of(catalog@, detections@.subrange(0, i + 1)) =~= labels_of(
                        catalog@,
                        detections@.subrange(0, i as int),
                    ).push(catalog@[d.class_id as int]));
                }
                i = i + 1;
            },
            None => {
                proof {
                    lemma_first_unknown(catalog@, detections@, i as int);
                }
                return Err(FrameError::UnknownClass(d.class_id));
            },
        }
    }
    proof {
        assert(detections@.subrange(0, i as int) =~= detections@);
    }
    let output = resolve_output(image_path);
    Ok(FramePlan { annotations, labels, output })
}

/// The steps of processing one image, in the order they run.
#[derive(Clone, Copy, Debug, PartialEq, Eq, Structural)]
pub enum FrameStep {
    LoadModel,
    ReadImage,
    Resize,
    Detect,
    Annotate,
    CreateDirectory,
    WriteImage,
}

/// What the driver of one image does next.
#[derive(Clone, Copy, Debug, PartialEq, Eq, Structural)]
pub enum FrameAction {
    /// Run this step.
    Run(FrameStep),
    /// Stop: the image yields no labels.
    Abandon,
    /// Stop: the image yields the labels found.
    Finish,
}

/// Whether the labels of an image depend on step `s` succeeding. Creating the
/// output directory and writing the annotated copy come after the labels are
/// known, and their failure does not discard them.
pub open spec fn labels_depend_on(s: FrameStep) -> bool {
    !(s is CreateDirectory || s is WriteImage)
}

/// The step that follows `s`, if any.
pub open spec fn step_after(s: FrameStep) -> Option<FrameStep> {
    match s {
        FrameStep::LoadModel => Some(FrameStep::ReadImage),
        FrameStep::ReadImage => Some(FrameStep::Resize),
        FrameStep::Resize => Some(FrameStep::Detect),
        FrameStep::Detect => Some(FrameStep::Annotate),
        FrameStep::Annotate => Some(FrameStep::CreateDirectory),
        FrameStep::CreateDirectory => Some(FrameStep::WriteImage),
        FrameStep::WriteImage => None,
    }
}

/// Decides what follows step `step` of one image, given whether it succeeded. A
/// failure up to annotation abandons the image alone; a failure to create the
/// output directory or to write the copy is passed over.
pub fn next_action(step: FrameStep, succeeded: bool) -> (r: FrameAction)
    ensures
        !succeeded && labels_depend_on(step) ==> r == FrameAction::Abandon,
        succeeded || !labels_depend_on(step) ==> r == match step_after(step) {
            Some(n) => FrameAction::Run(n),
            None => FrameAction::Finish,
        },
{
    let essential = match step {
        FrameStep::CreateDirectory | FrameStep::WriteImage => false,
        _ => true,
    };
    if !succeeded && essential {
        return FrameAction::Abandon;
    }
    match step {
        FrameStep::LoadModel => FrameAction::Run(FrameStep::ReadImage),
        FrameStep::ReadImage => FrameAction::Run(FrameStep::Resize),
        FrameStep::Resize => FrameAction::Run(FrameStep::Detect),
        FrameStep::Detect => FrameAction::Run(FrameStep::Annotate),
        FrameStep::Annotate => FrameAction::Run(FrameStep::CreateDirectory),
        FrameStep::CreateDirectory => FrameAction::Run(FrameStep::WriteImage),
        FrameStep::WriteImage => FrameAction::Finish,
    }
}

} // verus!
