use polestar_models::machine::Machine;
use polestar_models::network::adjacency::Adjacency;
use polestar_models::network::topology::Topology;
use polestar_models::network::{Action, Effect, Model, State};
use polestar_models::sorted_map::SortedMap;

#[derive(Debug, Clone, PartialEq, Eq)]
struct TestNode {
    me: u32,
    peers: Vec<u32>,
    sum: u32,
}

struct TestModel;

impl Machine for TestModel {
    type State = TestNode;
    type Action = u32;
    type Fx = Vec<Effect<u32>>;
    type Error = String;

    fn admissible(&self, _state: TestNode, _action: u32) -> bool {
        true
    }

    fn is_admissible(&self, _state: &TestNode, _action: &u32) -> bool {
        true
    }

    fn outcome(
        &self,
        _state: TestNode,
        _action: u32,
        _r: Result<(TestNode, Vec<Effect<u32>>), String>,
    ) -> bool {
        true
    }

    fn transition(&self, mut state: TestNode, action: u32) -> Result<(TestNode, Vec<Effect<u32>>), String> {
        state.sum += action;
        let fx = if action > 1 {
            state.peers.iter().map(|p| Effect::Send { to: *p, action: action - 1 }).collect()
        } else {
            vec![]
        };
        Ok((state, fx))
    }

    fn is_terminal(&self, _state: &TestNode) -> bool {
        false
    }
}

#[test]
fn test_transition_recursively() {
    let model = Model::new(TestModel, Topology::FullyConnected);
    let mut nodes = SortedMap::new();
    for i in 0..3u32 {
        nodes.insert(
            i,
            TestNode { me: i, peers: (0..3).filter(|j| *j != i).collect(), sum: 0 },
        );
    }
    let state = State { nodes };
    let action = Action::Node(0, 3);
    let (result, actions) = match model.transition_recursively(state, action) {
        Ok(r) => r,
        Err(_) => panic!("propagation failed"),
    };
    assert_eq!(actions.len(), 7);
    assert_eq!(result.nodes.get(&0).unwrap().sum, 5);
    assert_eq!(result.nodes.get(&1).unwrap().sum, 3);
    assert_eq!(result.nodes.get(&2).unwrap().sum, 3);
}

#[test]
fn the_first_node_acts_without_an_edge_to_itself() {
    let mut adj = Adjacency::new();
    for i in 0..3u32 {
        adj.add_node(i);
    }
    adj.add_edge(0, 1);
    let model = Model::new(TestModel, Topology::Adjacency(adj));
    let mut nodes = SortedMap::new();
    for i in 0..3u32 {
        nodes.insert(
            i,
            TestNode { me: i, peers: (0..3).filter(|j| *j != i).collect(), sum: 0 },
        );
    }
    let (result, actions) = match model.transition_recursively(State { nodes }, Action::Node(0, 2)) {
        Ok(r) => r,
        Err(_) => panic!("propagation failed"),
    };
    // Node 0 acts, its send to 1 crosses the edge, and its send to 2 is dropped.
    assert_eq!(actions.len(), 2);
    assert!(matches!(actions[0], (0, Action::Node(0, 2))));
    assert!(matches!(actions[1], (0, Action::Node(1, 1))));
    assert_eq!(result.nodes.get(&0).unwrap().sum, 2);
    assert_eq!(result.nodes.get(&1).unwrap().sum, 1);
    assert_eq!(result.nodes.get(&2).unwrap().sum, 0);
}
