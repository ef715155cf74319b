# catalogo_avl

Catálogo de libros de una biblioteca, ordenado por ISBN en un árbol AVL, verificado con Verus.

- `src/modelo.rs`: tipos `Libro` y `Nodo`, y el modelo: contenido (`Map<u32, Libro>`),
  recorrido en orden, altura verdadera, orden de búsqueda, alturas correctas, equilibrio.
- `src/altura.rs`, `src/rotaciones.rs`, `src/balanceo.rs`: alturas, rotaciones y re-balanceo.
- `src/insercion.rs`, `src/busqueda.rs`, `src/eliminacion.rs`: las operaciones del catálogo.
- `src/estadisticas.rs`, `src/impresion.rs`: recorrido de estadísticas y líneas del dibujo.
- `src/leyes.rs`: propiedades que relacionan operaciones (búsqueda tras inserción o
  eliminación, eliminación que deshace una inserción, altura logarítmica, libro de ISBN
  más alto).
- `app/main.rs`: el programa de demostración que imprime por pantalla.
