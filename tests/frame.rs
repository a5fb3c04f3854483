use batch_detect::catalog::ClassCatalog;
use batch_detect::frame::{
    label_origin, next_action, plan_frame, BoundingBox, Detection, FrameAction, FrameError,
    FrameStep,
};

fn catalog() -> ClassCatalog {
    ClassCatalog::from_text("cat\ndog\nbird")
}

fn det(class_id: i32, x: i32) -> Detection {
    Detection { class_id, bbox: BoundingBox { x, y: 20, width: 30, height: 40 } }
}

#[test]
fn one_detection_gives_its_label() {
    let c = catalog();
    let plan = match plan_frame("imgs/a.jpg", &vec![det(1, 5)], &c) {
        Ok(p) => p,
        Err(e) => panic!("unexpected {:?}", e),
    };
    assert_eq!(plan.labels.len(), 1);
    assert_eq!(Some(plan.labels[0].clone()), c.label(1));
    assert_eq!(plan.annotations.len(), 1);
    assert_eq!(plan.annotations[0].label, "dog");
    assert_eq!(plan.annotations[0].bbox, det(1, 5).bbox);
    assert_eq!(plan.output.file_path, "imgs/outputs/a.jpg");
}

#[test]
fn no_detections_still_plans_the_write() {
    let plan = match plan_frame("imgs/b.jpg", &vec![], &catalog()) {
        Ok(p) => p,
        Err(e) => panic!("unexpected {:?}", e),
    };
    assert!(plan.labels.is_empty());
    assert!(plan.annotations.is_empty());
    assert_eq!(plan.output.directory, "imgs/outputs");
    assert_eq!(plan.output.file_path, "imgs/outputs/b.jpg");
}

#[test]
fn labels_keep_detection_order_and_repeats() {
    let plan = match plan_frame("x/y.png", &vec![det(2, 1), det(0, 2), det(2, 3)], &catalog()) {
        Ok(p) => p,
        Err(e) => panic!("unexpected {:?}", e),
    };
    assert_eq!(
        plan.labels,
        vec!["bird".to_string(), "cat".to_string(), "bird".to_string()]
    );
    assert_eq!(plan.annotations[2].bbox.x, 3);
}

#[test]
fn unknown_class_is_an_error() {
    let r = plan_frame("x/y.png", &vec![det(0, 1), det(3, 2), det(-1, 3)], &catalog());
    assert!(matches!(r, Err(FrameError::UnknownClass(3))));
}

#[test]
fn negative_class_is_an_error() {
    let r = plan_frame("x/y.png", &vec![det(-1, 1)], &catalog());
    assert!(matches!(r, Err(FrameError::UnknownClass(-1))));
}

#[test]
fn label_sits_one_text_height_above_the_box() {
    let b = BoundingBox { x: 7, y: 50, width: 10, height: 10 };
    assert_eq!(label_origin(b, 12), (7, 38));
    let top = BoundingBox { x: 0, y: 3, width: 10, height: 10 };
    assert_eq!(label_origin(top, 12), (0, -9));
}

#[test]
fn early_failures_abandon_the_image() {
    assert_eq!(next_action(FrameStep::LoadModel, false), FrameAction::Abandon);
    assert_eq!(next_action(FrameStep::ReadImage, false), FrameAction::Abandon);
    assert_eq!(next_action(FrameStep::Detect, false), FrameAction::Abandon);
    assert_eq!(next_action(FrameStep::Annotate, false), FrameAction::Abandon);
}

#[test]
fn output_failures_keep_the_labels() {
    assert_eq!(
        next_action(FrameStep::CreateDirectory, false),
        FrameAction::Run(FrameStep::WriteImage)
    );
    assert_eq!(next_action(FrameStep::WriteImage, false), FrameAction::Finish);
}

#[test]
fn steps_run_in_order() {
    assert_eq!(next_action(FrameStep::LoadModel, true), FrameAction::Run(FrameStep::ReadImage));
    assert_eq!(next_action(FrameStep::ReadImage, true), FrameAction::Run(FrameStep::Resize));
    assert_eq!(next_action(FrameStep::Resize, true), FrameAction::Run(FrameStep::Detect));
    assert_eq!(next_action(FrameStep::Detect, true), FrameAction::Run(FrameStep::Annotate));
    assert_eq!(
        next_action(FrameStep::Annotate, true),
        FrameAction::Run(FrameStep::CreateDirectory)
    );
    assert_eq!(next_action(FrameStep::WriteImage, true), FrameAction::Finish);
}
