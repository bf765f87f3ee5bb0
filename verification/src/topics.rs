//! The topics of data sources and recordings: what a path or an entity becomes.

use crate::domain::{Topic, TopicView};
use crate::edge_topics;
use crate::import;
use crate::import::{EntityDescriptor, EntityDescriptorView};
use crate::table;
use vstd::prelude::*;

verus! {

/// The topic that stands for a path of a data source, shown by `renderer`.
pub open spec fn path_topic(
    source_id: Seq<char>,
    device_id: Seq<char>,
    path: Seq<char>,
    renderer: Seq<char>,
    updated_at: Seq<char>,
) -> TopicView {
    TopicView {
        id: edge_topics::topic_id(source_id, path),
        data_source_id: source_id,
        device_id,
        path,
        label: path,
        renderer,
        quality: "fresh"@,
        value: None,
        unit: None,
        message: None,
        samples: None,
        updated_at,
    }
}

fn make_topic(source_id: &str, device_id: &str, path: &str, renderer: &str, updated_at: &str) -> (r:
    Topic)
    ensures
        r@ == path_topic(source_id@, device_id@, path@, renderer@, updated_at@),
{
    Topic {
        id: edge_topics::make_topic_id(source_id, path),
        data_source_id: source_id.to_owned(),
        device_id: device_id.to_owned(),
        path: path.to_owned(),
        label: path.to_owned(),
        renderer: renderer.to_owned(),
        quality: "fresh".to_owned(),
        value: None,
        unit: None,
        message: None,
        samples: None,
        updated_at: updated_at.to_owned(),
    }
}

/// The topics for paths of which nothing but the name is known.
pub open spec fn source_topics(
    source_id: Seq<char>,
    device_id: Seq<char>,
    paths: Seq<Seq<char>>,
    updated_at: Seq<char>,
) -> Seq<TopicView> {
    paths.map_values(|p: Seq<char>| path_topic(source_id, device_id, p, "raw"@, updated_at))
}

/// One topic for each path that a data source lists by name.
pub fn topics_for_source(
    source_id: &str,
    device_id: &str,
    paths: &Vec<String>,
    updated_at: &str,
) -> (r: Vec<Topic>)
    ensures
        table::views(r@) == source_topics(source_id@, device_id@, table::views(paths@), updated_at@),
{
    let ghost all = source_topics(source_id@, device_id@, table::views(paths@), updated_at@);
    let mut r: Vec<Topic> = Vec::new();
    let mut i: usize = 0;
    proof {
        assert(table::views(r@) =~= all.take(0));
    }
    while i < paths.len()
        invariant
            i <= paths@.len(),
            all == source_topics(source_id@, device_id@, table::views(paths@), updated_at@),
            table::views(r@) == all.take(i as int),
        decreases paths@.len() - i,
    {
        let t = make_topic(source_id, device_id, paths[i].as_str(), "raw", updated_at);
        proof {
            assert(table::views(paths@)[i as int] == paths@[i as int]@);
            table::lemma_views_push(r@, t);
            assert(all.take(i + 1) =~= all.take(i as int).push(t@));
        }
        r.push(t);
        i = i + 1;
    }
    proof {
        assert(all.take(paths@.len() as int) =~= all);
    }
    r
}

/// The topics for the entities of a recording: each is shown as its own data calls for.
pub open spec fn entity_topics(
    source_id: Seq<char>,
    device_id: Seq<char>,
    entities: Seq<EntityDescriptorView>,
    updated_at: Seq<char>,
) -> Seq<TopicView> {
    entities.map_values(
        |e: EntityDescriptorView|
            path_topic(
                source_id,
                device_id,
                e.path,
                import::renderer_name(e.visualization),
                updated_at,
            ),
    )
}

/// One topic for each entity of a recording.
pub fn topics_for_entity_descriptors(
    source_id: &str,
    device_id: &str,
    entities: &Vec<EntityDescriptor>,
    updated_at: &str,
) -> (r: Vec<Topic>)
    ensures
        table::views(r@) == entity_topics(
            source_id@,
            device_id@,
            table::views(entities@),
            updated_at@,
        ),
{
    let ghost all = entity_topics(source_id@, device_id@, table::views(entities@), updated_at@);
    let mut r: Vec<Topic> = Vec::new();
    let mut i: usize = 0;
    proof {
        assert(table::views(r@) =~= all.take(0));
    }
    while i < entities.len()
        invariant
            i <= entities@.len(),
            all == entity_topics(source_id@, device_id@, table::views(entities@), updated_at@),
            table::views(r@) == all.take(i as int),
        decreases entities@.len() - i,
    {
        let e = &entities[i];
        let t = make_topic(
            source_id,
            device_id,
            e.path.as_str(),
            e.visualization.renderer(),
            updated_at,
        );
        proof {
            assert(table::views(entities@)[i as int] == entities@[i as int]@);
            table::lemma_views_push(r@, t);
            assert(all.take(i + 1) =~= all.take(i as int).push(t@));
        }
        r.push(t);
        i = i + 1;
    }
    proof {
        assert(all.take(entities@.len() as int) =~= all);
    }
    r
}

/// The topics that a recording brings: none without a path, one for each path where nothing is
/// known of the entities, and else one for each entity.
pub open spec fn brought_topics(
    source_id: Seq<char>,
    device_id: Seq<char>,
    paths: Seq<Seq<char>>,
    entities: Seq<EntityDescriptorView>,
    updated_at: Seq<char>,
) -> Seq<TopicView> {
    if paths.len() == 0 {
        Seq::empty()
    } else if entities.len() == 0 {
        source_topics(source_id, device_id, paths, updated_at)
    } else {
        entity_topics(source_id, device_id, entities, updated_at)
    }
}

/// The topics that a recording brings to its data source.
pub fn recording_topics(
    source_id: &str,
    device_id: &str,
    paths: &Vec<String>,
    descriptors: &Vec<EntityDescriptor>,
    updated_at: &str,
) -> (r: Vec<Topic>)
    ensures
        table::views(r@) == brought_topics(
            source_id@,
            device_id@,
            table::views(paths@),
            table::views(descriptors@),
            updated_at@,
        ),
{
    if paths.len() == 0 {
        let r: Vec<Topic> = Vec::new();
        proof {
            assert(table::views(r@) =~= Seq::<TopicView>::empty());
        }
        r
    } else if descriptors.len() == 0 {
        topics_for_source(source_id, device_id, paths, updated_at)
    } else {
        topics_for_entity_descriptors(source_id, device_id, descriptors, updated_at)
    }
}

/// The topic of an entity is shown by the renderer of the entity's own visualization.
pub proof fn law_entity_topics_keep_their_renderer(
    source_id: Seq<char>,
    device_id: Seq<char>,
    paths: Seq<Seq<char>>,
    entities: Seq<EntityDescriptorView>,
    updated_at: Seq<char>,
    i: int,
)
    requires
        paths.len() > 0,
        0 <= i < entities.len(),
    ensures
        ({
            let topics = brought_topics(source_id, device_id, paths, entities, updated_at);
            &&& topics.len() == entities.len()
            &&& topics[i].path == entities[i].path
            &&& topics[i].renderer == import::renderer_name(entities[i].visualization)
        }),
{
}

/// Each entity is shown by the renderer that its data calls for, and no two kinds of data share
/// one.
pub proof fn law_renderers_tell_data_apart(e: EntityDescriptorView, source_id: Seq<char>, device_id: Seq<char>, now: Seq<char>)
    ensures
        ({
            let t = entity_topics(source_id, device_id, seq![e], now)[0];
            &&& t.path == e.path
            &&& t.data_source_id == source_id
            &&& t.device_id == device_id
            &&& t.updated_at == now
            &&& t.quality == "fresh"@
            &&& t.renderer == "camera"@ <==> e.visualization == import::EntityVisualization::Camera
            &&& t.renderer == "map"@ <==> e.visualization == import::EntityVisualization::GeoMap
            &&& t.renderer == "spatial2d"@ <==> e.visualization == import::EntityVisualization::Spatial2d
            &&& t.renderer == "spatial3d"@ <==> e.visualization == import::EntityVisualization::Spatial3d
            &&& t.renderer == "transform3d"@ <==> e.visualization
                == import::EntityVisualization::Transform3d
            &&& t.renderer == "timeseries"@ <==> e.visualization == import::EntityVisualization::TimeSeries
            &&& t.renderer == "state"@ <==> e.visualization == import::EntityVisualization::State
            &&& t.renderer == "log"@ <==> e.visualization == import::EntityVisualization::Log
            &&& t.renderer == "raw"@ <==> e.visualization == import::EntityVisualization::Raw
        }),
{
    reveal_strlit("camera");
    reveal_strlit("map");
    reveal_strlit("spatial2d");
    reveal_strlit("spatial3d");
    reveal_strlit("transform3d");
    reveal_strlit("timeseries");
    reveal_strlit("state");
    reveal_strlit("log");
    reveal_strlit("raw");
    assert("camera"@.len() == 6 && "map"@.len() == 3 && "spatial2d"@.len() == 9 && "spatial3d"@.len()
        == 9 && "transform3d"@.len() == 11 && "timeseries"@.len() == 10 && "state"@.len() == 5
        && "log"@.len() == 3 && "raw"@.len() == 3);
    assert("map"@[0] == 'm' && "log"@[0] == 'l' && "raw"@[0] == 'r');
    assert("spatial2d"@[7] == '2' && "spatial3d"@[7] == '3');
}

/// Where nothing is known of the entities, each path gives one topic, shown as it is; where there
/// is no path, there is no topic.
pub proof fn law_unknown_paths_are_shown_raw(
    source_id: Seq<char>,
    device_id: Seq<char>,
    paths: Seq<Seq<char>>,
    now: Seq<char>,
)
    ensures
        ({
            let topics = brought_topics(source_id, device_id, paths, Seq::empty(), now);
            &&& topics.len() == paths.len()
            &&& forall|i: int|
                0 <= i < paths.len() ==> (#[trigger] topics[i]).path == paths[i] && topics[i].renderer
                    == "raw"@ && topics[i].data_source_id == source_id && topics[i].device_id
                    == device_id
        }),
        forall|entities: Seq<EntityDescriptorView>| #[trigger]
            brought_topics(source_id, device_id, Seq::empty(), entities, now).len() == 0,
{
}

} // verus!
