//! Catálogo de libros de una biblioteca guardado en un árbol AVL ordenado por ISBN.
//!
//! El árbol se representa como `Option<Box<Nodo>>`. Se lo describe por su contenido
//! (`Map<u32, Libro>`, ISBN → libro), su recorrido en orden (`Seq<Libro>`) y sus
//! invariantes: el orden de árbol binario de búsqueda, la altura guardada en cada nodo y
//! el factor de balance AVL. Cada operación que cambia el árbol tiene además una función
//! de especificación que da el árbol exacto que devuelve.

pub mod modelo;
pub mod altura;
pub mod rotaciones;
pub mod balanceo;
pub mod insercion;
pub mod busqueda;
pub mod eliminacion;
pub mod estadisticas;
pub mod impresion;
pub mod leyes;

pub use modelo::{Libro, Nodo};
pub use altura::{obtener_altura, actualizar_altura, obtener_balance};
pub use rotaciones::{rotar_derecha, rotar_izquierda};
pub use balanceo::balancear;
pub use insercion::insertar;
pub use busqueda::buscar;
pub use eliminacion::{extraer_minimo, eliminar};
pub use estadisticas::{Estadisticas, calcular_estadisticas};
pub use impresion::{Linea, lineas_de_impresion};
